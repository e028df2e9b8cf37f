//! One round of the guessing game.
//!
//! A round picks a random catalog entry, crops a bounded snippet out of its
//! source artwork as the visual clue, and then waits for a qualifying reply
//! or a timeout.  The logic here is deterministic in its inputs: randomness
//! and decoded image bytes come in as arguments, the caller performs the
//! waiting, and the round functions decide selection, geometry, matching
//! and the resolution message.
use vstd::prelude::*;

use rand::RngExt;

use crate::catalog::SkinData;
use crate::normalize::normalise_name;
use crate::normalize::spec_normalise;

verus! {

/// Selecting from an empty catalog cannot yield an entry.
#[derive(Clone, Copy, Debug, PartialEq, Eq, Structural)]
pub enum SelectError {
    /// The loaded catalog holds no entries.
    NoCatalogEntries,
}

/// Why no snippet could be produced from fetched image bytes.
#[derive(Clone, Copy, Debug, PartialEq, Eq, Structural)]
pub enum ImageError {
    /// The bytes do not decode as an image.
    Decode,
    /// The image is too small to crop a snippet from.
    BadDimensions,
    /// The cropped snippet could not be encoded back to bytes.
    Encode,
}

/// A crop rectangle, in pixels, inside a source image.
#[derive(Clone, Copy, Debug, PartialEq, Eq, Structural)]
pub struct CropRect {
    pub x: u32,
    pub y: u32,
    pub w: u32,
    pub h: u32,
}

/// The snippet never exceeds this many pixels on a side.
pub const MAX_CROP_SIDE: u32 = 500;

/// Each snippet side is this fraction of the matching image dimension.
pub const CROP_FRACTION: u32 = 5;

/// The snippet side for one image dimension: a fifth of it, capped.
pub open spec fn spec_crop_side(dim: u32) -> u32 {
    if dim / CROP_FRACTION < MAX_CROP_SIDE {
        (dim / CROP_FRACTION) as u32
    } else {
        MAX_CROP_SIDE
    }
}

/// The crop rectangle for an image of the given dimensions and the given
/// random draws: the bounded side lengths, placed so that the rectangle
/// stays fully inside the image.
pub open spec fn spec_crop_rect(width: u32, height: u32, rx: u32, ry: u32) -> CropRect {
    let w = spec_crop_side(width);
    let h = spec_crop_side(height);
    CropRect {
        x: (rx % ((width - w + 1) as u32)) as u32,
        y: (ry % ((height - h + 1) as u32)) as u32,
        w,
        h,
    }
}

/// Computes the snippet rectangle for an image of the given dimensions,
/// using two random draws for the offset.  Fails exactly when a dimension
/// is too small to cut a non-empty snippet from; otherwise the rectangle
/// has the bounded side lengths and lies fully inside
/// `[0, width) x [0, height)`, wherever the draws fall.
pub fn crop_rect(width: u32, height: u32, rx: u32, ry: u32) -> (r: Result<
    CropRect,
    ImageError,
>)
    ensures
        r is Ok <==> (width >= 5 && height >= 5),
        r matches Err(e) ==> e == ImageError::BadDimensions,
        r matches Ok(c) ==> c == spec_crop_rect(width, height, rx, ry),
        r matches Ok(c) ==> {
            &&& 1 <= c.w <= 500
            &&& 1 <= c.h <= 500
            &&& c.w == spec_crop_side(width)
            &&& c.h == spec_crop_side(height)
            &&& c.x + c.w <= width
            &&& c.y + c.h <= height
        },
{
    if width < 5 || height < 5 {
        return Err(ImageError::BadDimensions);
    }
    let w = crop_side(width);
    let h = crop_side(height);
    let x = rx % (width - w + 1);
    let y = ry % (height - h + 1);
    Ok(CropRect { x, y, w, h })
}

fn crop_side(dim: u32) -> (r: u32)
    ensures
        r == spec_crop_side(dim),
{
    let s = dim / CROP_FRACTION;
    if s < MAX_CROP_SIDE {
        s
    } else {
        MAX_CROP_SIDE
    }
}

/// Relies on rand's `rng()` and `RngExt::random_range`: a draw from a
/// non-empty range lies inside it.
#[verifier::external_body]
fn random_below(n: usize) -> (r: usize)
    requires
        n > 0,
    ensures
        r < n,
{
    rand::rng().random_range(0..n)
}

/// Relies on rand's `rng()` and `RngExt::random_range`: an arbitrary draw,
/// of which nothing is promised.
#[verifier::external_body]
fn random_u32() -> u32 {
    rand::rng().random_range(0..=u32::MAX)
}

/// Picks one catalog entry uniformly at random.  Yields an entry of the
/// catalog whenever it is non-empty; an empty catalog always answers
/// `NoCatalogEntries` — never a panic and never a made-up entry.
pub fn choose_entry(catalog: &Vec<SkinData>) -> (r: Result<&SkinData, SelectError>)
    ensures
        r is Err <==> catalog@.len() == 0,
        r matches Err(e) ==> e == SelectError::NoCatalogEntries,
        r matches Ok(s) ==> exists|i: int| 0 <= i < catalog@.len() && *s == catalog@[i],
{
    if catalog.len() == 0 {
        return Err(SelectError::NoCatalogEntries);
    }
    let i = random_below(catalog.len());
    Ok(&catalog[i])
}

/// What the decoder reads off the artwork bytes: the image's width and
/// height when they decode, nothing otherwise.
pub uninterp spec fn image_dims_of(b: Seq<u8>) -> Option<(u32, u32)>;

/// Relies on image's `load_from_memory` and `DynamicImage::width` /
/// `DynamicImage::height`: decoding is a function of the bytes alone, and
/// succeeds exactly when they hold a supported image.
#[verifier::external_body]
fn decode_dims(b: &Vec<u8>) -> (r: Option<(u32, u32)>)
    ensures
        r == image_dims_of(b@),
{
    match image::load_from_memory(b.as_slice()) {
        Ok(img) => Some((img.width(), img.height())),
        Err(_) => None,
    }
}

/// What cropping the artwork to a rectangle and re-encoding it yields: the
/// PNG bytes of the crop, or nothing when the bytes do not decode or the
/// crop cannot be encoded.
pub uninterp spec fn cropped_png_of(b: Seq<u8>, x: u32, y: u32, w: u32, h: u32) -> Option<
    Seq<u8>,
>;

/// Relies on image's `load_from_memory`, `DynamicImage::crop_imm` and
/// `DynamicImage::write_to` with the PNG format: the encoded crop is a
/// function of the bytes and the rectangle alone.
#[verifier::external_body]
fn crop_to_png(b: &Vec<u8>, x: u32, y: u32, w: u32, h: u32) -> (r: Option<Vec<u8>>)
    ensures
        match r {
            Some(v) => cropped_png_of(b@, x, y, w, h) == Some(v@),
            None => cropped_png_of(b@, x, y, w, h) is None,
        },
{
    let img = match image::load_from_memory(b.as_slice()) {
        Ok(i) => i,
        Err(_) => return None,
    };
    let crop = img.crop_imm(x, y, w, h);
    let mut cursor = std::io::Cursor::new(Vec::new());
    match crop.write_to(&mut cursor, image::ImageFormat::Png) {
        Ok(()) => Some(cursor.into_inner()),
        Err(_) => None,
    }
}

/// What a snippet attempt yields for given artwork bytes and random draws.
pub open spec fn spec_snippet(b: Seq<u8>, rx: u32, ry: u32) -> Result<Seq<u8>, ImageError> {
    match image_dims_of(b) {
        None => Err(ImageError::Decode),
        Some(d) => if d.0 < 5 || d.1 < 5 {
            Err(ImageError::BadDimensions)
        } else {
            let c = spec_crop_rect(d.0, d.1, rx, ry);
            match cropped_png_of(b, c.x, c.y, c.w, c.h) {
                None => Err(ImageError::Encode),
                Some(p) => Ok(p),
            }
        },
    }
}

/// Produces the visual clue from fetched artwork bytes and two random
/// draws: decodes the bytes, crops the bounded rectangle the draws place,
/// and re-encodes it as PNG.  Each failure names its stage.
pub fn make_snippet(bytes: &Vec<u8>, rx: u32, ry: u32) -> (r: Result<Vec<u8>, ImageError>)
    ensures
        match r {
            Ok(v) => spec_snippet(bytes@, rx, ry) == Ok::<Seq<u8>, ImageError>(v@),
            Err(e) => spec_snippet(bytes@, rx, ry) == Err::<Seq<u8>, ImageError>(e),
        },
{
    let dims = match decode_dims(bytes) {
        Some(d) => d,
        None => {
            return Err(ImageError::Decode);
        },
    };
    let (width, height) = dims;
    let rect = match crop_rect(width, height, rx, ry) {
        Ok(c) => c,
        Err(e) => {
            return Err(e);
        },
    };
    match crop_to_png(bytes, rect.x, rect.y, rect.w, rect.h) {
        Some(p) => Ok(p),
        None => Err(ImageError::Encode),
    }
}

/// Produces the visual clue with fresh random draws.  Whatever the draws,
/// a decode failure is reported exactly when the bytes do not decode, a
/// dimension failure exactly when the image is too small, and any snippet
/// handed back is one some draw yields.
pub fn make_random_snippet(bytes: &Vec<u8>) -> (r: Result<Vec<u8>, ImageError>)
    ensures
        (r matches Err(e) && e == ImageError::Decode) <==> image_dims_of(bytes@) is None,
        (r matches Err(e) && e == ImageError::BadDimensions) <==> (image_dims_of(bytes@)
            matches Some(d) && (d.0 < 5 || d.1 < 5)),
        match r {
            Ok(v) => exists|rx: u32, ry: u32| spec_snippet(bytes@, rx, ry) == Ok::<
                Seq<u8>,
                ImageError,
            >(v@),
            Err(e) => exists|rx: u32, ry: u32| spec_snippet(bytes@, rx, ry) == Err::<
                Seq<u8>,
                ImageError,
            >(e),
        },
{
    let rx = random_u32();
    let ry = random_u32();
    let r = make_snippet(bytes, rx, ry);
    proof {
        match &r {
            Ok(v) => {
                assert(spec_snippet(bytes@, rx, ry) == Ok::<Seq<u8>, ImageError>(v@));
            },
            Err(e) => {
                assert(spec_snippet(bytes@, rx, ry) == Err::<Seq<u8>, ImageError>(*e));
            },
        }
    }
    r
}

/// Whether a message qualifies as the answer: its normalized text equals
/// the entry's canonical name.
pub open spec fn spec_is_answer(content: Seq<char>, answer: Seq<char>) -> bool {
    spec_normalise(content) == answer
}

/// Whether a message is the skip command from the round's requester.
pub open spec fn spec_is_skip(content: Seq<char>, from_requester: bool) -> bool {
    content == ("e!skip")@ && from_requester
}

/// The waiter's predicate: a message ends the wait when it answers the
/// round or when the requester skips it.
pub fn reply_matches(content: &str, answer: &str, from_requester: bool) -> (b: bool)
    ensures
        b == (spec_is_answer(content@, answer@) || spec_is_skip(content@, from_requester)),
{
    let normalized = normalise_name(content);
    if eq_str(normalized.as_str(), answer) {
        return true;
    }
    from_requester && eq_str(content, "e!skip")
}

/// Compares two string slices character by character.
fn eq_str(a: &str, b: &str) -> (r: bool)
    ensures
        r == (a@ == b@),
{
    let n = a.unicode_len();
    if n != b.unicode_len() {
        return false;
    }
    let mut i: usize = 0;
    while i < n
        invariant
            i <= n,
            n == a@.len(),
            n == b@.len(),
            forall|j: int| 0 <= j < i ==> a@[j] == b@[j],
        decreases n - i,
    {
        if a.get_char(i) != b.get_char(i) {
            return false;
        }
        i = i + 1;
    }
    proof {
        assert(a@ =~= b@);
    }
    true
}

/// How a completed round ended.
#[derive(Clone, Copy, Debug, PartialEq, Eq, Structural)]
pub enum RoundOutcome {
    /// A qualifying answer arrived before the deadline.
    Solved,
    /// The requester skipped the round.
    Skipped,
    /// The deadline passed with no qualifying reply.
    TimedOut,
}

/// The outcome a qualifying reply (or its absence) resolves to.
pub open spec fn spec_outcome(reply: Option<Seq<char>>) -> RoundOutcome {
    match reply {
        None => RoundOutcome::TimedOut,
        Some(content) => if content == ("e!skip")@ {
            RoundOutcome::Skipped
        } else {
            RoundOutcome::Solved
        },
    }
}

/// Resolves a completed round from the reply the waiter delivered, if any:
/// no reply means the round timed out, the skip command means it was
/// skipped, and any other qualifying reply solved it.  Exactly one outcome
/// holds for any completed round.
pub fn resolve_round(reply: Option<&String>) -> (r: RoundOutcome)
    ensures
        r == spec_outcome(match reply {
            Some(c) => Some(c@),
            None => None,
        }),
        r == RoundOutcome::TimedOut <==> reply is None,
        r == RoundOutcome::Skipped <==> (reply matches Some(c) && c@ == ("e!skip")@),
        r == RoundOutcome::Solved <==> (reply matches Some(c) && c@ != ("e!skip")@),
{
    match reply {
        None => RoundOutcome::TimedOut,
        Some(content) => {
            if eq_str(content.as_str(), "e!skip") {
                RoundOutcome::Skipped
            } else {
                RoundOutcome::Solved
            }
        },
    }
}

/// ASCII characters that stand for themselves in a URL path: printing
/// characters other than `"`, `#`, `<`, `>`, `?`, `` ` ``, `{` and `}` —
/// the rest would terminate or alter the path when the address is parsed.
pub open spec fn path_safe(c: char) -> bool {
    let u = c as u32;
    &&& 32 < u
    &&& u < 127
    &&& c != '"'
    &&& c != '#'
    &&& c != '<'
    &&& c != '>'
    &&& c != '?'
    &&& c != '`'
    &&& c != '{'
    &&& c != '}'
}

/// How one character of an entry id stands in the artwork path: path-safe
/// ASCII and non-ASCII text as themselves, any other ASCII percent-encoded.
pub open spec fn spec_path_char(c: char) -> Seq<char> {
    if (c as u32) >= 128 || path_safe(c) {
        seq![c]
    } else {
        seq!['%', crate::codec::hex_digit((c as u32) as int / 16), crate::codec::hex_digit(
            (c as u32) as int % 16,
        )]
    }
}

/// An entry id written into a URL path, character by character.
pub open spec fn spec_encode_path(s: Seq<char>) -> Seq<char>
    decreases s.len(),
{
    if s.len() == 0 {
        Seq::empty()
    } else {
        spec_path_char(s[0]) + spec_encode_path(s.drop_first())
    }
}

/// Path-encoding one more character appends its encoding.
proof fn lemma_encode_path_push(s: Seq<char>, c: char)
    ensures
        spec_encode_path(s.push(c)) == spec_encode_path(s) + spec_path_char(c),
    decreases s.len(),
{
    if s.len() == 0 {
        assert(s.push(c)[0] == c);
        assert(s.push(c).drop_first() =~= s);
        assert(spec_encode_path(s) =~= Seq::<char>::empty());
        assert(spec_encode_path(s.push(c)) =~= spec_encode_path(s) + spec_path_char(c));
    } else {
        assert(s.push(c).drop_first() =~= s.drop_first().push(c));
        assert(s.push(c)[0] == s[0]);
        lemma_encode_path_push(s.drop_first(), c);
        assert(spec_encode_path(s.push(c)) =~= spec_encode_path(s) + spec_path_char(c));
    }
}

/// Appends the path encoding of `s` to `out`.
fn encode_path_into(out: &mut String, s: &str)
    ensures
        final(out)@ == old(out)@ + spec_encode_path(s@),
{
    let n = s.unicode_len();
    let mut i: usize = 0;
    proof {
        assert(s@.take(0) =~= Seq::<char>::empty());
        assert(out@ =~= old(out)@ + spec_encode_path(s@.take(0)));
    }
    while i < n
        invariant
            i <= n,
            n == s@.len(),
            out@ == old(out)@ + spec_encode_path(s@.take(i as int)),
        decreases n - i,
    {
        let c = s.get_char(i);
        proof {
            lemma_encode_path_push(s@.take(i as int), c);
            assert(s@.take(i as int + 1) =~= s@.take(i as int).push(c));
        }
        let u = c as u32;
        if u >= 128 || (32 < u && u < 127 && c != '"' && c != '#' && c != '<' && c != '>'
            && c != '?' && c != '`' && c != '{' && c != '}') {
            out.push(c);
        } else {
            out.push('%');
            out.push(crate::codec::hex_digit_exec(u / 16));
            out.push(crate::codec::hex_digit_exec(u % 16));
        }
        proof {
            assert(out@ =~= old(out)@ + spec_encode_path(s@.take(i as int + 1)));
        }
        i = i + 1;
    }
    proof {
        assert(s@.take(n as int) =~= s@);
    }
}

/// The location of an entry's source artwork: the id stands in the path
/// with its path-special ASCII characters percent-encoded, so an id such
/// as `2005#6` still names the right file and survives in the reveal link.
pub open spec fn spec_image_url(id: Seq<char>) -> Seq<char> {
    ("https://raw.githubusercontent.com/yuanyan3060/ArknightsGameResource/refs/heads/main/skin/")@
        + spec_encode_path(id) + ("b.png")@
}

/// Builds the address of the artwork for an entry id.
pub fn skin_image_url(skin_id: &str) -> (r: String)
    ensures
        r@ == spec_image_url(skin_id@),
{
    let mut r = String::from_str(
        "https://raw.githubusercontent.com/yuanyan3060/ArknightsGameResource/refs/heads/main/skin/",
    );
    encode_path_into(&mut r, skin_id);
    r.append("b.png");
    r
}

/// The address the catalog metadata is fetched from.
pub fn skin_table_url() -> (r: String)
    ensures
        r@ == (
        "https://raw.githubusercontent.com/yuanyan3060/ArknightsGameResource/refs/heads/main/gamedata/excel/skin_table.json")@,
{
    String::from_str(
        "https://raw.githubusercontent.com/yuanyan3060/ArknightsGameResource/refs/heads/main/gamedata/excel/skin_table.json",
    )
}

/// Whether an inbound message is the command that starts a round.
pub fn is_guess_command(content: &str) -> (b: bool)
    ensures
        b == (content@ == ("e!guess")@),
{
    eq_str(content, "e!guess")
}

/// What is said when a round resolves: a cheer for a solver, and the
/// revealed name linking to the artwork for a skip or a timeout.
pub open spec fn spec_outcome_message(o: RoundOutcome, name: Seq<char>, url: Seq<char>)
    -> Seq<char> {
    match o {
        RoundOutcome::Solved => (":tada:")@,
        RoundOutcome::Skipped => ("[Skipped] It's [")@ + name + ("](")@ + url + (")")@,
        RoundOutcome::TimedOut => ("It's [")@ + name + ("](")@ + url + (")")@,
    }
}

/// Builds the resolution message for an outcome, the entry's canonical
/// name and the artwork address.
pub fn outcome_message(outcome: RoundOutcome, name: &str, url: &str) -> (r: String)
    ensures
        r@ == spec_outcome_message(outcome, name@, url@),
{
    match outcome {
        RoundOutcome::Solved => String::from_str(":tada:"),
        RoundOutcome::Skipped => {
            let mut r = String::from_str("[Skipped] It's [");
            r.append(name);
            r.append("](");
            r.append(url);
            r.append(")");
            r
        },
        RoundOutcome::TimedOut => {
            let mut r = String::from_str("It's [");
            r.append(name);
            r.append("](");
            r.append(url);
            r.append(")");
            r
        },
    }
}

/// Any reply (or none) resolves to exactly one of the three outcomes.
pub proof fn lemma_one_outcome(reply: Option<Seq<char>>)
    ensures
        spec_outcome(reply) is TimedOut || spec_outcome(reply) is Skipped || spec_outcome(
            reply,
        ) is Solved,
        spec_outcome(reply) is TimedOut <==> reply is None,
        spec_outcome(reply) is Skipped <==> (reply matches Some(c) && c == ("e!skip")@),
        spec_outcome(reply) is Solved <==> (reply matches Some(c) && c != ("e!skip")@),
{
}

} // verus!
