//! The trailer that turns a host executable into a standalone one.
//!
//! Layout of a packaged image, from the front:
//! `[ base executable ][ compressed metadata ][ length field ][ marker ]`.
//! The length field holds the byte length of the compressed block in one to
//! three bytes. It is written so that it can be read backwards from the
//! marker: the byte next to the marker holds the lowest seven bits, and the
//! high bit of a byte says that one more byte of the field stands before it.
use vstd::prelude::*;
use vstd::utf8::encode_utf8;
use crate::context::GlobalsContextBuilder;
use crate::path::{PathComponent, ScriptPath, resolve_onto, resolved_from};

verus! {

/// Largest compressed block that the three-byte length field can describe.
pub const MAX_BLOCK_LEN: usize = 2097151;

/// The five bytes `M8G2C` that close every packaged image.
pub open spec fn marker() -> Seq<u8> {
    seq![77u8, 56u8, 71u8, 50u8, 67u8]
}

/// The length field for a block of `n` bytes, as it stands in the image.
pub open spec fn length_field(n: nat) -> Seq<u8> {
    if n < 128 {
        seq![n as u8]
    } else if n < 16384 {
        seq![(n / 128) as u8, (n % 128 + 128) as u8]
    } else {
        seq![(n / 16384) as u8, ((n / 128) % 128 + 128) as u8, (n % 128 + 128) as u8]
    }
}

/// Reads the length field at the end of `b`: the block length and the
/// width of the field, or `None` when the last three bytes all carry the
/// continuation bit (or `b` ends before the field does).
pub open spec fn read_length_field(b: Seq<u8>) -> Option<(nat, nat)> {
    let l = b.len();
    if l >= 1 && b[l - 1] < 128 {
        Some((b[l - 1] as nat, 1))
    } else if l >= 2 && b[l - 2] < 128 {
        Some((((b[l - 1] - 128) + 128 * b[l - 2]) as nat, 2))
    } else if l >= 3 && b[l - 3] < 128 {
        Some((((b[l - 1] - 128) + 128 * (b[l - 2] - 128) + 16384 * b[l - 3]) as nat, 3))
    } else {
        None
    }
}

/// Writing a length and reading it back from the end gives the same length,
/// whatever bytes stand before the field.
pub proof fn lemma_length_field_round_trip(prefix: Seq<u8>, n: nat)
    requires
        n <= MAX_BLOCK_LEN,
    ensures
        read_length_field(prefix + length_field(n)) == Some((n, length_field(n).len())),
{
    let b = prefix + length_field(n);
    let l = b.len();
    if n < 128 {
        assert(b[l - 1] == n as u8);
    } else if n < 16384 {
        assert(b[l - 1] == (n % 128 + 128) as u8);
        assert(b[l - 2] == (n / 128) as u8);
        assert(n == 128 * (n / 128) + n % 128) by (nonlinear_arith);
        assert(n / 128 < 128) by (nonlinear_arith)
            requires n < 16384;
    } else {
        assert(b[l - 1] == (n % 128 + 128) as u8);
        assert(b[l - 2] == ((n / 128) % 128 + 128) as u8);
        assert(b[l - 3] == (n / 16384) as u8);
        let q = n / 128;
        vstd::arithmetic::div_mod::lemma_fundamental_div_mod(n as int, 128);
        vstd::arithmetic::div_mod::lemma_fundamental_div_mod(q as int, 128);
        assert(q / 128 == n / 16384) by {
            vstd::arithmetic::div_mod::lemma_div_denominator(n as int, 128, 128);
        }
        assert(n / 16384 < 128) by (nonlinear_arith)
            requires n < 2097152;
        assert(q % 128 < 128);
    }
}

/// Encodes the length field for a block of `n` bytes.
pub fn encode_length_field(n: usize) -> (r: Vec<u8>)
    requires
        n <= MAX_BLOCK_LEN,
    ensures
        r@ == length_field(n as nat),
{
    let mut r: Vec<u8> = Vec::new();
    if n < 128 {
        r.push(n as u8);
    } else if n < 16384 {
        r.push((n / 128) as u8);
        r.push((n % 128 + 128) as u8);
    } else {
        r.push((n / 16384) as u8);
        r.push(((n / 128) % 128 + 128) as u8);
        r.push((n % 128 + 128) as u8);
    }
    assert(r@ =~= length_field(n as nat));
    r
}

/// Reads the length field at the end of `b`, as `read_length_field` says.
pub fn decode_length_field(b: &[u8]) -> (r: Option<(usize, usize)>)
    ensures
        match r {
            Some((n, w)) => read_length_field(b@) == Some((n as nat, w as nat)),
            None => read_length_field(b@) is None,
        },
{
    let l = b.len();
    if l >= 1 && b[l - 1] < 128 {
        Some((b[l - 1] as usize, 1))
    } else if l >= 2 && b[l - 2] < 128 {
        Some(((b[l - 1] - 128) as usize + 128 * (b[l - 2] as usize), 2))
    } else if l >= 3 && b[l - 3] < 128 {
        Some(
            ((b[l - 1] - 128) as usize + 128 * ((b[l - 2] - 128) as usize) + 16384 * (
            b[l - 3] as usize), 3),
        )
    } else {
        None
    }
}


/// A script carried by a standalone image: its path relative to the working
/// directory at launch, and its compiled bytecode.
#[derive(Debug)]
pub struct LuauScript(pub String, pub Vec<u8>);

impl View for LuauScript {
    type V = (Seq<char>, Seq<u8>);

    open spec fn view(&self) -> (Seq<char>, Seq<u8>) {
        (self.0@, self.1@)
    }
}

/// What a standalone image carries. The first script is the one that runs.
#[derive(Debug)]
pub struct Metadata {
    pub scripts: Vec<LuauScript>,
}

/// The scripts of a list, as (path, bytecode) values.
pub open spec fn scripts_view(scripts: Seq<LuauScript>) -> Seq<(Seq<char>, Seq<u8>)> {
    scripts.map_values(|s: LuauScript| s@)
}

impl View for Metadata {
    type V = Seq<(Seq<char>, Seq<u8>)>;

    open spec fn view(&self) -> Seq<(Seq<char>, Seq<u8>)> {
        scripts_view(self.scripts@)
    }
}

/// Why a trailer could not be written or read.
#[derive(Debug, Clone, Copy, PartialEq, Eq)]
pub enum MetadataError {
    /// The length field before the marker is malformed, or names more bytes
    /// than stand before it.
    BadLength,
    /// The marker is there, but the block does not decompress or decode.
    CorruptTrailer,
    /// The compressed block is too long for the length field.
    TooLarge,
}

/// postcard's variable-length encoding of an unsigned integer: seven bits
/// per byte, lowest first, the high bit set on every byte but the last.
pub open spec fn varint(n: nat) -> Seq<u8>
    decreases n,
{
    if n < 128 {
        seq![n as u8]
    } else {
        seq![(n % 128 + 128) as u8] + varint(n / 128)
    }
}

/// postcard's encoding of one (path, bytecode) pair: each buffer behind its
/// length, the path as UTF-8.
pub open spec fn entry_wire(e: (Seq<char>, Seq<u8>)) -> Seq<u8> {
    let path = encode_utf8(e.0);
    varint(path.len()) + path + varint(e.1.len()) + e.1
}

pub open spec fn entries_wire(s: Seq<(Seq<char>, Seq<u8>)>) -> Seq<u8>
    decreases s.len(),
{
    if s.len() == 0 {
        Seq::empty()
    } else {
        entries_wire(s.drop_last()) + entry_wire(s.last())
    }
}

/// postcard's encoding of the script list: its length, then each pair.
pub open spec fn scripts_wire(s: Seq<(Seq<char>, Seq<u8>)>) -> Seq<u8> {
    varint(s.len()) + entries_wire(s)
}

/// What lz4_compression's decompressor makes of `block`: the bytes it
/// stands for, or `None` when it is not a well-formed block.
pub uninterp spec fn lz4_decoded(block: Seq<u8>) -> Option<Seq<u8>>;

/// The most bytes that the compressor writes for `n` input bytes: one token
/// per sequence, the literals, and one length byte per 255 of a long run.
pub open spec fn lz4_bound(n: nat) -> nat {
    n + n / 255 + 16
}

/// What postcard's decoder makes of `bytes` read as a list of (path,
/// bytecode) pairs, or `None` when it fails.
pub uninterp spec fn postcard_scripts(bytes: Seq<u8>) -> Option<Seq<(Seq<char>, Seq<u8>)>>;

#[verifier::external_type_specification]
#[verifier::external_body]
pub struct ExLz4Error(lz4_compression::decompress::Error);

#[verifier::external_type_specification]
#[verifier::external_body]
pub struct ExPostcardError(postcard::Error);

/// Relies on lz4_compression::compress::compress, which writes a block
/// that decompresses to `data`: each sequence is a token, the literal
/// length beyond 15 in 255-steps, the literals, and for a match (of at
/// least four input bytes) a two-byte offset and its length beyond 19.
#[verifier::external_body]
fn lz4_compress(data: &[u8]) -> (r: Vec<u8>)
    ensures
        lz4_decoded(r@) == Some(data@),
        r@.len() <= lz4_bound(data@.len()),
{
    lz4_compression::compress::compress(data)
}

/// Relies on lz4_compression::decompress::decompress, which reads the
/// block's bytes alone (offsets little-endian) and returns an error, never
/// panicking, on bytes that are not a well-formed block.
#[verifier::external_body]
fn lz4_decompress(block: &[u8]) -> (r: Result<Vec<u8>, lz4_compression::decompress::Error>)
    ensures
        r is Ok <==> lz4_decoded(block@) is Some,
        r is Ok ==> lz4_decoded(block@) == Some(r->Ok_0@),
{
    lz4_compression::decompress::decompress(block)
}

/// Relies on postcard::to_allocvec, which writes a sequence of
/// (string, byte slice) pairs in postcard's wire format.
#[verifier::external_body]
fn postcard_encode(scripts: &Vec<LuauScript>) -> (r: Vec<u8>)
    ensures
        r@ == scripts_wire(scripts_view(scripts@)),
{
    let pairs: Vec<(&str, &[u8])> = scripts.iter().map(|s| (s.0.as_str(), s.1.as_slice())).collect();
    match postcard::to_allocvec(&pairs) {
        Ok(bytes) => bytes,
        Err(_) => Vec::new(),
    }
}

/// Relies on postcard::from_bytes, which reads a sequence of
/// (String, Vec<u8>) pairs from bytes alone, and reads back exactly what
/// postcard's wire format wrote.
#[verifier::external_body]
fn postcard_decode(bytes: &[u8]) -> (r: Result<Vec<LuauScript>, postcard::Error>)
    ensures
        r is Ok <==> postcard_scripts(bytes@) is Some,
        r is Ok ==> postcard_scripts(bytes@) == Some(scripts_view(r->Ok_0@)),
        forall|s: Seq<(Seq<char>, Seq<u8>)>|
            bytes@ == #[trigger] scripts_wire(s) ==> r is Ok && scripts_view(r->Ok_0@) == s,
{
    postcard::from_bytes::<Vec<(String, Vec<u8>)>>(bytes).map(
        |pairs| pairs.into_iter().map(|(path, code)| LuauScript(path, code)).collect(),
    )
}

/// The image made of `base` with the compressed block `block` appended,
/// then its length field and the marker.
pub open spec fn packed_with(base: Seq<u8>, block: Seq<u8>) -> Seq<u8> {
    base + block + length_field(block.len()) + marker()
}

/// Whether an image ends with the marker.
pub open spec fn has_marker(image: Seq<u8>) -> bool {
    image.len() >= 5 && image.subrange(image.len() - 5, image.len() as int) == marker()
}

/// An image without its last five bytes.
pub open spec fn body_of(image: Seq<u8>) -> Seq<u8> {
    image.subrange(0, image.len() - 5)
}

/// The compressed block that the length field at the end of `body` points
/// at, if it is well formed and fits.
pub open spec fn block_of(body: Seq<u8>) -> Option<Seq<u8>> {
    match read_length_field(body) {
        Some((n, w)) => if n + w <= body.len() {
            Some(body.subrange(body.len() - w - n, body.len() - w))
        } else {
            None
        },
        None => None,
    }
}

/// What a compressed block holds: the decoded scripts, or `CorruptTrailer`
/// when it does not decompress or its bytes do not decode.
pub open spec fn block_outcome(block: Seq<u8>) -> Result<Seq<(Seq<char>, Seq<u8>)>, MetadataError> {
    match lz4_decoded(block) {
        None => Err(MetadataError::CorruptTrailer),
        Some(d) => match postcard_scripts(d) {
            None => Err(MetadataError::CorruptTrailer),
            Some(s) => Ok(s),
        },
    }
}

/// What an image without its marker holds.
pub open spec fn body_outcome(body: Seq<u8>) -> Result<Seq<(Seq<char>, Seq<u8>)>, MetadataError> {
    match block_of(body) {
        None => Err(MetadataError::BadLength),
        Some(block) => block_outcome(block),
    }
}

/// What an image holds: `None` without the marker.
pub open spec fn image_outcome(image: Seq<u8>) -> Result<
    Option<Seq<(Seq<char>, Seq<u8>)>>,
    MetadataError,
> {
    if !has_marker(image) {
        Ok(None)
    } else {
        match body_outcome(body_of(image)) {
            Ok(s) => Ok(Some(s)),
            Err(e) => Err(e),
        }
    }
}

fn ends_with_marker(image: &[u8]) -> (r: bool)
    ensures
        r == has_marker(image@),
{
    let l = image.len();
    if l < 5 {
        return false;
    }
    let r = image[l - 5] == 77u8 && image[l - 4] == 56u8 && image[l - 3] == 71u8 && image[l - 2]
        == 50u8 && image[l - 1] == 67u8;
    proof {
        let tail = image@.subrange(l - 5, l as int);
        if r {
            assert(tail =~= marker());
        } else if tail == marker() {
            assert(tail[0] == image@[l - 5] && tail[1] == image@[l - 4] && tail[2] == image@[l - 3]
                && tail[3] == image@[l - 2] && tail[4] == image@[l - 1]);
        }
    }
    r
}

impl Metadata {
    /// Builds a standalone image: `base` followed by the compressed
    /// scripts, the length field and the marker.
    pub fn create_env_patched_bin(base: Vec<u8>, scripts: Vec<LuauScript>) -> (r: Result<
        Vec<u8>,
        MetadataError,
    >)
        ensures
            lz4_bound(scripts_wire(scripts_view(scripts@)).len()) <= MAX_BLOCK_LEN ==> r is Ok,
            r is Err ==> r == Err::<Vec<u8>, MetadataError>(MetadataError::TooLarge),
            r is Ok ==> exists|block: Seq<u8>|
                #![trigger lz4_decoded(block)]
                block.len() <= MAX_BLOCK_LEN && lz4_decoded(block) == Some(
                    scripts_wire(scripts_view(scripts@)),
                ) && r->Ok_0@ == packed_with(base@, block),
    {
        let encoded = postcard_encode(&scripts);
        let block = lz4_compress(encoded.as_slice());
        let n = block.len();
        if n > MAX_BLOCK_LEN {
            return Err(MetadataError::TooLarge);
        }
        let mut image = base;
        image.extend_from_slice(block.as_slice());
        let field = encode_length_field(n);
        image.extend_from_slice(field.as_slice());
        image.push(77u8);
        image.push(56u8);
        image.push(71u8);
        image.push(50u8);
        image.push(67u8);
        assert(image@ =~= packed_with(base@, block@));
        Ok(image)
    }

    /// Reads the scripts from `bytes`, an image without its marker.
    pub fn from_bytes(bytes: &[u8]) -> (r: Result<Metadata, MetadataError>)
        ensures
            match body_outcome(bytes@) {
                Ok(s) => r is Ok && r->Ok_0@ == s,
                Err(e) => r == Err::<Metadata, MetadataError>(e),
            },
            forall|s: Seq<(Seq<char>, Seq<u8>)>|
                #![trigger scripts_wire(s)]
                block_of(bytes@) is Some && lz4_decoded(block_of(bytes@)->0) == Some(
                    scripts_wire(s),
                ) ==> r is Ok && r->Ok_0@ == s,
    {
        let l = bytes.len();
        let (n, w) = match decode_length_field(bytes) {
            Some(f) => f,
            None => return Err(MetadataError::BadLength),
        };
        if w > l || n > l - w {
            return Err(MetadataError::BadLength);
        }
        let block = &bytes[l - w - n..l - w];
        let decompressed = match lz4_decompress(block) {
            Ok(d) => d,
            Err(_) => return Err(MetadataError::CorruptTrailer),
        };
        match postcard_decode(decompressed.as_slice()) {
            Ok(scripts) => Ok(Metadata { scripts }),
            Err(_) => Err(MetadataError::CorruptTrailer),
        }
    }

    /// Looks for a trailer in `contents`, the bytes of an executable:
    /// `Ok(None)` when it does not end with the marker.
    pub fn check_env(contents: &[u8]) -> (r: Result<Option<Metadata>, MetadataError>)
        ensures
            match image_outcome(contents@) {
                Ok(None) => r == Ok::<Option<Metadata>, MetadataError>(None),
                Ok(Some(s)) => r is Ok && r->Ok_0 is Some && r->Ok_0->Some_0@ == s,
                Err(e) => r == Err::<Option<Metadata>, MetadataError>(e),
            },
            forall|s: Seq<(Seq<char>, Seq<u8>)>|
                #![trigger scripts_wire(s)]
                has_marker(contents@) && block_of(body_of(contents@)) is Some && lz4_decoded(
                    block_of(body_of(contents@))->0,
                ) == Some(scripts_wire(s)) ==> r is Ok && r->Ok_0 is Some && r->Ok_0->Some_0@
                    == s,
    {
        if !ends_with_marker(contents) {
            return Ok(None);
        }
        let body = &contents[0..contents.len() - 5];
        assert(body@ == body_of(contents@));
        match Metadata::from_bytes(body) {
            Ok(meta) => Ok(Some(meta)),
            Err(e) => Err(e),
        }
    }
}

/// The store after each packaged script is added at its path resolved under
/// `cwd`, in order.
pub open spec fn installed(
    st: Map<(bool, Seq<Seq<char>>), Seq<u8>>,
    cwd: (bool, Seq<Seq<char>>),
    scripts: Seq<(Vec<PathComponent>, Vec<u8>)>,
) -> Map<(bool, Seq<Seq<char>>), Seq<u8>>
    decreases scripts.len(),
{
    if scripts.len() == 0 {
        st
    } else {
        installed(st, cwd, scripts.drop_last()).insert(
            resolved_from(cwd, scripts.last().0@),
            scripts.last().1@,
        )
    }
}

/// Adds the scripts of a standalone image to the virtual store, each at its
/// path (given by components) resolved under `cwd`, and returns the path of
/// the first one, the entry point; `None` when there are none.
pub fn install_scripts<F>(
    builder: &mut GlobalsContextBuilder<F>,
    cwd: &ScriptPath,
    scripts: Vec<(Vec<PathComponent>, Vec<u8>)>,
) -> (r: Option<ScriptPath>)
    ensures
        final(builder).script_store() == installed(old(builder).script_store(), cwd@, scripts@),
        final(builder).libraries() == old(builder).libraries(),
        match r {
            Some(p) => scripts@.len() > 0 && p@ == resolved_from(cwd@, scripts@[0].0@),
            None => scripts@.len() == 0,
        },
{
    let ghost all = scripts@;
    let mut rest = scripts;
    let ghost mut done: Seq<(Vec<PathComponent>, Vec<u8>)> = Seq::empty();
    let mut entry: Option<ScriptPath> = None;
    while rest.len() > 0
        invariant
            all == done + rest@,
            builder.script_store() == installed(old(builder).script_store(), cwd@, done),
            builder.libraries() == old(builder).libraries(),
            match entry {
                Some(p) => done.len() > 0 && p@ == resolved_from(cwd@, all[0].0@),
                None => done.len() == 0,
            },
        decreases rest.len(),
    {
        let (components, code) = rest.remove(0);
        let ghost e = (components, code);
        assert(all =~= done.push(e) + rest@);
        let path = resolve_onto(cwd.copied(), &components);
        if entry.is_none() {
            entry = Some(path.copied());
        }
        builder.with_script(path, code);
        proof {
            assert(done.push(e).drop_last() =~= done);
            assert(done.push(e)[0] == all[0]);
            done = done.push(e);
        }
    }
    entry
}

/// Packing scripts and reading the image back gives the same scripts, in
/// the same order: the image that `create_env_patched_bin` builds around a
/// block ends with the marker, and its length field points at exactly that
/// block. `check_env` then returns the scripts whose encoding the block
/// decompresses to.
pub proof fn lemma_pack_round_trip(base: Seq<u8>, block: Seq<u8>)
    requires
        block.len() <= MAX_BLOCK_LEN,
    ensures
        has_marker(packed_with(base, block)),
        block_of(body_of(packed_with(base, block))) == Some(block),
{
    let field = length_field(block.len());
    let image = packed_with(base, block);
    let body = base + block + field;
    assert(image == body + marker());
    assert(image.subrange(image.len() - 5, image.len() as int) =~= marker());
    assert(body_of(image) =~= body);
    lemma_length_field_round_trip(base + block, block.len());
    assert(body.subrange(body.len() - field.len() - block.len(), body.len() - field.len())
        =~= block);
}

/// Changing a byte inside the compressed block of a packed image leaves the
/// marker and the length field as they were: the image is still taken as
/// packaged, and the same span, with the changed byte, is what gets
/// decompressed. `check_env` then gives the scripts that span decodes to,
/// or `CorruptTrailer` when it does not decompress or decode; never "not
/// packaged" and never `BadLength`.
pub proof fn lemma_block_change_keeps_frame(base: Seq<u8>, block: Seq<u8>, i: int, v: u8)
    requires
        block.len() <= MAX_BLOCK_LEN,
        base.len() <= i < base.len() + block.len(),
    ensures
        has_marker(packed_with(base, block).update(i, v)),
        block_of(body_of(packed_with(base, block).update(i, v))) == Some(
            block.update(i - base.len(), v),
        ),
        image_outcome(packed_with(base, block).update(i, v)) == match block_outcome(
            block.update(i - base.len(), v),
        ) {
            Ok(s) => Ok(Some(s)),
            Err(e) => Err(e),
        },
{
    let changed = block.update(i - base.len(), v);
    assert(packed_with(base, block).update(i, v) =~= packed_with(base, changed));
    lemma_pack_round_trip(base, changed);
}

} // verus!
