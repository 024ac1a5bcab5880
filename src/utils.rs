use vstd::prelude::*;

verus! {

/// What zlib compression at the default level makes of the bytes `b`.
pub uninterp spec fn zlib_encoded(b: Seq<u8>) -> Seq<u8>;

/// Relies on `flate2::read::ZlibEncoder` with `Compression::default()`: read
/// to its end over a byte slice, it yields the zlib stream of those bytes,
/// which depends on them alone, or reports a compressor error.
#[verifier::external_body]
fn zlib_compress(b: &[u8]) -> (r: Option<Vec<u8>>)
    ensures
        r matches Some(v) ==> v@ == zlib_encoded(b@),
{
    let mut out: Vec<u8> = Vec::new();
    let mut encoder = flate2::read::ZlibEncoder::new(b, flate2::Compression::default());
    match std::io::Read::read_to_end(&mut encoder, &mut out) {
        Ok(_) => Some(out),
        Err(_) => None,
    }
}

/// A growable byte buffer that is written in compressed blocks and read back
/// in order.
#[derive(Clone, Debug)]
pub struct ByteArrayCache {
    inner: Vec<u8>,
    position: usize,
}

impl ByteArrayCache {
    /// The bytes held so far.
    pub closed spec fn contents(&self) -> Seq<u8> {
        self.inner@
    }

    /// How many of them have been read.
    pub closed spec fn read_position(&self) -> int {
        self.position as int
    }

    /// The position never passes the end of the contents.
    pub open spec fn wf(&self) -> bool {
        self.read_position() <= self.contents().len()
    }

    /// An empty cache.
    pub fn new() -> (r: Self)
        ensures
            r.contents() == Seq::<u8>::empty(),
            r.read_position() == 0,
            r.wf(),
    {
        ByteArrayCache { inner: Vec::new(), position: 0 }
    }

    /// An empty cache with room for `capacity` bytes.
    pub fn with_capacity(capacity: usize) -> (r: Self)
        ensures
            r.contents() == Seq::<u8>::empty(),
            r.read_position() == 0,
            r.wf(),
    {
        ByteArrayCache { inner: Vec::with_capacity(capacity), position: 0 }
    }

    /// Appends the zlib compression of `data`; `false`, with nothing
    /// appended, where the compressor fails.
    pub fn write(&mut self, data: &[u8]) -> (r: bool)
        requires
            old(self).wf(),
        ensures
            r ==> final(self).contents() == old(self).contents() + zlib_encoded(data@),
            !r ==> final(self).contents() == old(self).contents(),
            final(self).read_position() == old(self).read_position(),
            final(self).wf(),
    {
        match zlib_compress(data) {
            Some(block) => {
                let mut block = block;
                self.inner.append(&mut block);
                true
            },
            None => false,
        }
    }

    /// Reads up to `max` of the bytes not read yet.
    pub fn read(&mut self, max: usize) -> (r: Vec<u8>)
        requires
            old(self).wf(),
        ensures
            r@ == old(self).contents().subrange(
                old(self).read_position(),
                if old(self).read_position() + max < old(self).contents().len() {
                    old(self).read_position() + max
                } else {
                    old(self).contents().len() as int
                },
            ),
            final(self).contents() == old(self).contents(),
            final(self).read_position() == old(self).read_position() + r@.len(),
            final(self).wf(),
    {
        let total: usize = self.inner.len();
        let left = total - self.position;
        let n = if max < left {
            max
        } else {
            left
        };
        let mut out: Vec<u8> = Vec::new();
        let mut i: usize = 0;
        while i < n
            invariant
                i <= n,
                n <= left,
                self.inner@.len() == self.position + left,
                self.position + left == total,
                self.position <= self.inner@.len(),
                out@ == self.inner@.subrange(self.position as int, self.position + i),
            decreases n - i,
        {
            out.push(self.inner[self.position + i]);
            proof {
                assert(out@ =~= self.inner@.subrange(self.position as int, self.position + i + 1));
            }
            i = i + 1;
        }
        self.position = self.position + n;
        out
    }
}

} // verus!
