//! The persisted catalog format.
//!
//! The catalog is stored as one flat JSON array of objects,
//! `[{"skinId":"...","modelName":"..."},...]`, written compactly with no
//! whitespace.  Inside a string, `"` and `\` are escaped with a backslash,
//! control characters as `\u00XX`, and every other character stands for
//! itself; the loader accepts exactly the escapes the writer emits and
//! rejects bare control characters.  Parsing pins down the whole grammar: a
//! file loads successfully if and only if it is a well-formed compact
//! catalog, and a catalog written and read back comes back unchanged.
use vstd::prelude::*;

use crate::catalog::{SkinData, SkinDataView};

verus! {

/// Why a persisted catalog failed to load.
#[derive(Clone, Copy, Debug, PartialEq, Eq, Structural)]
pub enum LoadError {
    /// The stored text is not a well-formed compact catalog.
    Corrupt,
}

/// The view of a catalog: each entry replaced by its view.
pub open spec fn catalog_view(c: Seq<SkinData>) -> Seq<SkinDataView> {
    c.map_values(|e: SkinData| e@)
}

/// Whether a character is a hexadecimal digit.
pub open spec fn is_hex(c: char) -> bool {
    ('0' <= c && c <= '9') || ('a' <= c && c <= 'f') || ('A' <= c && c <= 'F')
}

/// The numeric value of a hexadecimal digit.
pub open spec fn hex_val(c: char) -> int {
    if '0' <= c && c <= '9' {
        (c as u32) - 48
    } else if 'a' <= c && c <= 'f' {
        (c as u32) - 87
    } else {
        (c as u32) - 55
    }
}

/// The uppercase hexadecimal digit for a value below sixteen.
pub open spec fn hex_digit(d: int) -> char {
    if d < 10 {
        ((48 + d) as u8) as char
    } else {
        ((55 + d) as u8) as char
    }
}

/// The uppercase hexadecimal digit for a value below sixteen.
pub(crate) fn hex_digit_exec(d: u32) -> (r: char)
    requires
        d < 16,
    ensures
        r == hex_digit(d as int),
{
    if d < 10 {
        ((48 + d) as u8) as char
    } else {
        ((55 + d) as u8) as char
    }
}

/// How one character is written inside a JSON string.
pub open spec fn esc_char(c: char) -> Seq<char> {
    if c == '"' {
        seq!['\\', '"']
    } else if c == '\\' {
        seq!['\\', '\\']
    } else if (c as u32) < 32 {
        seq!['\\', 'u', '0', '0', hex_digit((c as u32) as int / 16), hex_digit(
            (c as u32) as int % 16,
        )]
    } else {
        seq![c]
    }
}

/// The escaped body of a JSON string.
pub open spec fn spec_escape(s: Seq<char>) -> Seq<char>
    decreases s.len(),
{
    if s.len() == 0 {
        Seq::empty()
    } else {
        esc_char(s[0]) + spec_escape(s.drop_first())
    }
}

/// A quoted, escaped JSON string.
pub open spec fn spec_encode_string(s: Seq<char>) -> Seq<char> {
    seq!['"'] + spec_escape(s) + seq!['"']
}

/// The opening of an entry object up to (and including) the colon of its
/// first key.
pub open spec fn lit_entry_open() -> Seq<char> {
    seq!['{', '"', 's', 'k', 'i', 'n', 'I', 'd', '"', ':']
}

/// The separator and second key of an entry object, up to its colon.
pub open spec fn lit_model_key() -> Seq<char> {
    seq![',', '"', 'm', 'o', 'd', 'e', 'l', 'N', 'a', 'm', 'e', '"', ':']
}

/// One encoded catalog entry.
pub open spec fn spec_encode_entry(e: SkinDataView) -> Seq<char> {
    lit_entry_open() + spec_encode_string(e.skin_id) + lit_model_key() + spec_encode_string(
        e.model_name,
    ) + seq!['}']
}

/// The comma-separated encoded entries of a catalog.
pub open spec fn spec_encode_entries(c: Seq<SkinDataView>) -> Seq<char>
    decreases c.len(),
{
    if c.len() == 0 {
        Seq::empty()
    } else if c.len() == 1 {
        spec_encode_entry(c[0])
    } else {
        spec_encode_entry(c[0]) + seq![','] + spec_encode_entries(c.drop_first())
    }
}

/// The whole encoded catalog: a JSON array of its entries.
pub open spec fn spec_encode_catalog(c: Seq<SkinDataView>) -> Seq<char> {
    seq!['['] + spec_encode_entries(c) + seq![']']
}

/// Parses the body of a JSON string after its opening quote; yields the
/// decoded characters and the remainder after the closing quote.
pub open spec fn spec_parse_string_body(s: Seq<char>) -> Option<(Seq<char>, Seq<char>)>
    decreases s.len(),
{
    if s.len() == 0 {
        None
    } else if s[0] == '"' {
        Some((Seq::empty(), s.skip(1)))
    } else if s[0] == '\\' {
        if s.len() >= 2 && (s[1] == '"' || s[1] == '\\') {
            match spec_parse_string_body(s.skip(2)) {
                Some((t, r)) => Some((seq![s[1]] + t, r)),
                None => None,
            }
        } else if s.len() >= 6 && s[1] == 'u' && is_hex(s[2]) && is_hex(s[3]) && is_hex(s[4])
            && is_hex(s[5]) && spec_escaped_code(s) < 32 {
            match spec_parse_string_body(s.skip(6)) {
                Some((t, r)) => Some((seq![(spec_escaped_code(s) as u8) as char] + t, r)),
                None => None,
            }
        } else {
            None
        }
    } else if (s[0] as u32) < 32 {
        None
    } else {
        match spec_parse_string_body(s.skip(1)) {
            Some((t, r)) => Some((seq![s[0]] + t, r)),
            None => None,
        }
    }
}

/// The code a `\uXXXX` escape denotes, read off the four digits.
pub open spec fn spec_escaped_code(s: Seq<char>) -> int {
    hex_val(s[2]) * 4096 + hex_val(s[3]) * 256 + hex_val(s[4]) * 16 + hex_val(s[5])
}

/// Parses a quoted JSON string.
pub open spec fn spec_parse_string(s: Seq<char>) -> Option<(Seq<char>, Seq<char>)> {
    if s.len() > 0 && s[0] == '"' {
        spec_parse_string_body(s.skip(1))
    } else {
        None
    }
}

/// Parses one catalog entry object.
pub open spec fn spec_parse_entry(s: Seq<char>) -> Option<(SkinDataView, Seq<char>)> {
    if lit_entry_open().is_prefix_of(s) {
        match spec_parse_string(s.skip(10)) {
            Some((id, r1)) => if lit_model_key().is_prefix_of(r1) {
                match spec_parse_string(r1.skip(13)) {
                    Some((name, r2)) => if r2.len() > 0 && r2[0] == '}' {
                        Some((SkinDataView { skin_id: id, model_name: name }, r2.skip(1)))
                    } else {
                        None
                    },
                    None => None,
                }
            } else {
                None
            },
            None => None,
        }
    } else {
        None
    }
}

/// Parses one or more comma-separated entries.
pub open spec fn spec_parse_entries(s: Seq<char>) -> Option<(Seq<SkinDataView>, Seq<char>)>
    decreases s.len(),
{
    match spec_parse_entry(s) {
        Some((e, r)) => if r.len() > 0 && r[0] == ',' {
            if r.skip(1).len() < s.len() {
                match spec_parse_entries(r.skip(1)) {
                    Some((es, r2)) => Some((seq![e] + es, r2)),
                    None => None,
                }
            } else {
                None
            }
        } else {
            Some((seq![e], r))
        },
        None => None,
    }
}

/// Parses a whole stored catalog; `None` means the text is corrupt.
pub open spec fn spec_parse_catalog(s: Seq<char>) -> Option<Seq<SkinDataView>> {
    if s.len() >= 2 && s[0] == '[' {
        if s == seq!['[', ']'] {
            Some(Seq::empty())
        } else {
            match spec_parse_entries(s.skip(1)) {
                Some((es, r)) => if r == seq![']'] {
                    Some(es)
                } else {
                    None
                },
                None => None,
            }
        }
    } else {
        None
    }
}

/// Parsing a string body consumes at least the closing quote.
proof fn lemma_psb_shrinks(s: Seq<char>)
    ensures
        spec_parse_string_body(s) matches Some((t, r)) ==> r.len() < s.len(),
    decreases s.len(),
{
    if s.len() == 0 {
    } else if s[0] == '"' {
    } else if s[0] == '\\' {
        if s.len() >= 2 {
            lemma_psb_shrinks(s.skip(2));
        }
        if s.len() >= 6 {
            lemma_psb_shrinks(s.skip(6));
        }
    } else {
        lemma_psb_shrinks(s.skip(1));
    }
}

/// Parsing an entry consumes at least one character.
proof fn lemma_parse_entry_shrinks(s: Seq<char>)
    ensures
        spec_parse_entry(s) matches Some((e, r)) ==> r.len() < s.len(),
{
    if lit_entry_open().is_prefix_of(s) {
        lemma_psb_shrinks(s.skip(10).skip(1));
        match spec_parse_string(s.skip(10)) {
            Some(p) => {
                lemma_psb_shrinks(p.1.skip(13).skip(1));
            },
            None => {},
        }
    }
}

/// An uppercase hexadecimal digit reads back as its value.
proof fn lemma_hex_digit_round(d: int)
    requires
        0 <= d < 16,
    ensures
        is_hex(hex_digit(d)),
        hex_val(hex_digit(d)) == d,
{
}

/// Parsing the encoding of a string body (plus its closing quote) in front
/// of any remainder gives back exactly the string and the remainder.
proof fn lemma_psb_of_escaped(s: Seq<char>, rest: Seq<char>)
    ensures
        spec_parse_string_body(spec_escape(s) + seq!['"'] + rest) == Some((s, rest)),
    decreases s.len(),
{
    if s.len() == 0 {
        let e = spec_escape(s) + seq!['"'] + rest;
        assert(e[0] == '"');
        assert(e.skip(1) =~= rest);
    } else {
        let c = s[0];
        lemma_psb_of_escaped(s.drop_first(), rest);
        let tail = spec_escape(s.drop_first()) + seq!['"'] + rest;
        let e = spec_escape(s) + seq!['"'] + rest;
        assert(e =~= esc_char(c) + tail);
        if c == '"' || c == '\\' {
            assert(e[0] == '\\');
            assert(e[1] == c);
            assert(e.skip(2) =~= tail);
            assert(seq![c] + s.drop_first() =~= s);
        } else if (c as u32) < 32 {
            let u = (c as u32) as int;
            lemma_hex_digit_round(u / 16);
            lemma_hex_digit_round(u % 16);
            assert(e[0] == '\\');
            assert(e[1] == 'u');
            assert(e[2] == '0');
            assert(e[3] == '0');
            assert(e[4] == hex_digit(u / 16));
            assert(e[5] == hex_digit(u % 16));
            assert(hex_val('0') == 0);
            assert(spec_escaped_code(e) == u);
            let ch = (u as u8) as char;
            assert(ch as u32 == c as u32);
            vstd::utf8::char_u32_cast(ch, ch as u32);
            vstd::utf8::char_u32_cast(c, c as u32);
            assert(ch == c);
            assert(e.skip(6) =~= tail);
            assert(seq![c] + s.drop_first() =~= s);
        } else {
            assert(e[0] == c);
            assert(e.skip(1) =~= tail);
            assert(seq![c] + s.drop_first() =~= s);
        }
    }
}

/// Parsing the encoding of a string in front of any remainder gives back
/// exactly the string and the remainder.
proof fn lemma_parse_string_of_encoded(s: Seq<char>, rest: Seq<char>)
    ensures
        spec_parse_string(spec_encode_string(s) + rest) == Some((s, rest)),
{
    let e = spec_encode_string(s) + rest;
    assert(e[0] == '"');
    assert(e.skip(1) =~= spec_escape(s) + seq!['"'] + rest);
    lemma_psb_of_escaped(s, rest);
}

/// Parsing the encoding of an entry in front of any remainder gives back
/// exactly the entry and the remainder.
proof fn lemma_parse_entry_of_encoded(e: SkinDataView, rest: Seq<char>)
    ensures
        spec_parse_entry(spec_encode_entry(e) + rest) == Some((e, rest)),
{
    let s = spec_encode_entry(e) + rest;
    let r1 = lit_model_key() + spec_encode_string(e.model_name) + seq!['}'] + rest;
    let r2 = seq!['}'] + rest;
    assert(s.take(10) =~= lit_entry_open());
    assert(lit_entry_open().is_prefix_of(s));
    assert(s.skip(10) =~= spec_encode_string(e.skin_id) + r1);
    lemma_parse_string_of_encoded(e.skin_id, r1);
    assert(r1.take(13) =~= lit_model_key());
    assert(lit_model_key().is_prefix_of(r1));
    assert(r1.skip(13) =~= spec_encode_string(e.model_name) + r2);
    lemma_parse_string_of_encoded(e.model_name, r2);
    assert(r2[0] == '}');
    assert(r2.skip(1) =~= rest);
    assert(SkinDataView { skin_id: e.skin_id, model_name: e.model_name } =~= e);
}

/// Parsing the encoding of a non-empty entry sequence, in front of a
/// remainder that does not begin with a comma, gives back exactly the
/// entries and the remainder.
proof fn lemma_parse_entries_of_encoded(c: Seq<SkinDataView>, rest: Seq<char>)
    requires
        c.len() > 0,
        rest.len() > 0,
        rest[0] != ',',
    ensures
        spec_parse_entries(spec_encode_entries(c) + rest) == Some((c, rest)),
    decreases c.len(),
{
    let s = spec_encode_entries(c) + rest;
    if c.len() == 1 {
        assert(s =~= spec_encode_entry(c[0]) + rest);
        lemma_parse_entry_of_encoded(c[0], rest);
        assert(seq![c[0]] =~= c);
    } else {
        let tail = spec_encode_entries(c.drop_first()) + rest;
        let r = seq![','] + tail;
        assert(s =~= spec_encode_entry(c[0]) + r);
        lemma_parse_entry_of_encoded(c[0], r);
        assert(r[0] == ',');
        assert(r.skip(1) =~= tail);
        lemma_parse_entry_shrinks(s);
        lemma_parse_entries_of_encoded(c.drop_first(), rest);
        assert(seq![c[0]] + c.drop_first() =~= c);
    }
}

/// The characters of a string slice, as a vector.
fn chars_of(s: &str) -> (v: Vec<char>)
    ensures
        v@ == s@,
{
    let n = s.unicode_len();
    let mut v: Vec<char> = Vec::new();
    let mut i: usize = 0;
    while i < n
        invariant
            i <= n,
            n == s@.len(),
            v@ == s@.take(i as int),
        decreases n - i,
    {
        let c = s.get_char(i);
        v.push(c);
        proof {
            assert(s@.take(i as int).push(c) =~= s@.take(i as int + 1));
        }
        i = i + 1;
    }
    proof {
        assert(s@.take(n as int) =~= s@);
    }
    v
}

/// Escaping one more character appends its escape.
proof fn lemma_escape_push(s: Seq<char>, c: char)
    ensures
        spec_escape(s.push(c)) == spec_escape(s) + esc_char(c),
    decreases s.len(),
{
    if s.len() == 0 {
        assert(s.push(c)[0] == c);
        assert(s.push(c).drop_first() =~= s);
        assert(spec_escape(s.push(c)) == esc_char(c) + spec_escape(s));
        assert(spec_escape(s) =~= Seq::<char>::empty());
        assert(spec_escape(s.push(c)) =~= spec_escape(s) + esc_char(c));
    } else {
        assert(s.push(c).drop_first() =~= s.drop_first().push(c));
        lemma_escape_push(s.drop_first(), c);
        assert(spec_escape(s.push(c)) =~= spec_escape(s) + esc_char(c));
    }
}

/// Appends the quoted, escaped encoding of `s` to `out`.
fn encode_string_into(out: &mut String, s: &str)
    ensures
        final(out)@ == old(out)@ + spec_encode_string(s@),
{
    out.push('"');
    let n = s.unicode_len();
    let mut i: usize = 0;
    proof {
        assert(s@.take(0) =~= Seq::<char>::empty());
        assert(out@ =~= old(out)@ + seq!['"'] + spec_escape(s@.take(0)));
    }
    while i < n
        invariant
            i <= n,
            n == s@.len(),
            out@ == old(out)@ + seq!['"'] + spec_escape(s@.take(i as int)),
        decreases n - i,
    {
        let c = s.get_char(i);
        proof {
            lemma_escape_push(s@.take(i as int), c);
            assert(s@.take(i as int + 1) =~= s@.take(i as int).push(c));
        }
        if c == '"' {
            out.push('\\');
            out.push('"');
        } else if c == '\\' {
            out.push('\\');
            out.push('\\');
        } else if (c as u32) < 32 {
            let u = c as u32;
            out.push('\\');
            out.push('u');
            out.push('0');
            out.push('0');
            out.push(hex_digit_exec(u / 16));
            out.push(hex_digit_exec(u % 16));
        } else {
            out.push(c);
        }
        proof {
            assert(out@ =~= old(out)@ + seq!['"'] + spec_escape(s@.take(i as int + 1)));
        }
        i = i + 1;
    }
    out.push('"');
    proof {
        assert(s@.take(n as int) =~= s@);
        assert(out@ =~= old(out)@ + spec_encode_string(s@));
    }
}

/// Appends the encoding of one entry to `out`.
fn encode_entry_into(out: &mut String, e: &SkinData)
    ensures
        final(out)@ == old(out)@ + spec_encode_entry(e@),
{
    proof {
        reveal_strlit("{\"skinId\":");
        reveal_strlit(",\"modelName\":");
        assert(("{\"skinId\":")@ =~= lit_entry_open());
        assert((",\"modelName\":")@ =~= lit_model_key());
    }
    out.append("{\"skinId\":");
    encode_string_into(out, e.skin_id.as_str());
    out.append(",\"modelName\":");
    encode_string_into(out, e.model_name.as_str());
    out.push('}');
    proof {
        assert(out@ =~= old(out)@ + spec_encode_entry(e@));
    }
}

/// Appending one more entry to a non-empty encoding inserts a comma.
proof fn lemma_encode_entries_snoc(c: Seq<SkinDataView>, e: SkinDataView)
    requires
        c.len() > 0,
    ensures
        spec_encode_entries(c.push(e)) == spec_encode_entries(c) + seq![',']
            + spec_encode_entry(e),
    decreases c.len(),
{
    if c.len() == 1 {
        assert(c.push(e).drop_first() =~= seq![e]);
        assert(c.push(e)[0] == c[0]);
        assert(spec_encode_entries(seq![e]) == spec_encode_entry(e)) by {
            assert(seq![e][0] == e);
        }
        assert(spec_encode_entries(c.push(e)) =~= spec_encode_entries(c) + seq![',']
            + spec_encode_entry(e));
    } else {
        assert(c.push(e).drop_first() =~= c.drop_first().push(e));
        assert(c.push(e)[0] == c[0]);
        lemma_encode_entries_snoc(c.drop_first(), e);
        assert(spec_encode_entries(c.push(e)) =~= spec_encode_entries(c) + seq![',']
            + spec_encode_entry(e));
    }
}

/// Writes the catalog in its stored form: a compact JSON array of entry
/// objects, in catalog order.
pub fn encode_catalog(catalog: &Vec<SkinData>) -> (r: String)
    ensures
        r@ == spec_encode_catalog(catalog_view(catalog@)),
{
    let ghost cv = catalog_view(catalog@);
    let mut out = String::new();
    out.push('[');
    let mut i: usize = 0;
    proof {
        assert(out@ =~= seq!['[']);
    }
    while i < catalog.len()
        invariant
            i <= catalog@.len(),
            cv == catalog_view(catalog@),
            cv.len() == catalog@.len(),
            i == 0 ==> out@ == seq!['['],
            i > 0 ==> out@ == seq!['['] + spec_encode_entries(cv.take(i as int)),
        decreases catalog@.len() - i,
    {
        if i > 0 {
            out.push(',');
        }
        encode_entry_into(&mut out, &catalog[i]);
        proof {
            assert(cv[i as int] == catalog@[i as int]@);
            assert(cv.take(i as int + 1) =~= cv.take(i as int).push(cv[i as int]));
            if i == 0 {
                assert(spec_encode_entries(cv.take(1)) == spec_encode_entry(cv[0])) by {
                    assert(cv.take(1)[0] == cv[0]);
                    assert(cv.take(1).len() == 1);
                }
                assert(out@ =~= seq!['['] + spec_encode_entries(cv.take(1)));
            } else {
                lemma_encode_entries_snoc(cv.take(i as int), cv[i as int]);
                assert(out@ =~= seq!['['] + spec_encode_entries(cv.take(i as int + 1)));
            }
        }
        i = i + 1;
    }
    out.push(']');
    proof {
        assert(cv.take(cv.len() as int) =~= cv);
        if catalog@.len() == 0 {
            assert(spec_encode_entries(cv) =~= Seq::<char>::empty());
            assert(out@ =~= spec_encode_catalog(cv));
        } else {
            assert(out@ =~= spec_encode_catalog(cv));
        }
    }
    out
}

/// The value of one hexadecimal digit character, if it is one.
fn hex_val_exec(c: char) -> (r: Option<u32>)
    ensures
        match r {
            Some(d) => is_hex(c) && d as int == hex_val(c) && d < 16,
            None => !is_hex(c),
        },
{
    let u = c as u32;
    if 48 <= u && u <= 57 {
        Some(u - 48)
    } else if 97 <= u && u <= 102 {
        Some(u - 87)
    } else if 65 <= u && u <= 70 {
        Some(u - 55)
    } else {
        None
    }
}

/// Reads a string body starting at `i`, just past the opening quote.
fn parse_string_body(v: &Vec<char>, i: usize) -> (r: Option<(String, usize)>)
    requires
        i <= v@.len(),
    ensures
        match r {
            Some(p) => i <= p.1 <= v@.len() && spec_parse_string_body(v@.skip(i as int))
                == Some((p.0@, v@.skip(p.1 as int))),
            None => spec_parse_string_body(v@.skip(i as int)) is None,
        },
{
    let mut acc = String::new();
    let mut j: usize = i;
    loop
        invariant
            i <= j <= v@.len(),
            match spec_parse_string_body(v@.skip(j as int)) {
                Some(p) => spec_parse_string_body(v@.skip(i as int)) == Some(
                    (acc@ + p.0, p.1),
                ),
                None => spec_parse_string_body(v@.skip(i as int)) is None,
            },
        decreases v@.len() - j,
    {
        let ghost s = v@.skip(j as int);
        if j == v.len() {
            proof {
                assert(s.len() == 0);
            }
            return None;
        }
        proof {
            assert(s[0] == v@[j as int]);
        }
        let c = v[j];
        if c == '"' {
            proof {
                assert(s.skip(1) =~= v@.skip(j as int + 1));
                assert(acc@ + Seq::<char>::empty() =~= acc@);
            }
            return Some((acc, j + 1));
        } else if c == '\\' {
            if j + 1 < v.len() {
                proof {
                    assert(s[1] == v@[j as int + 1]);
                }
                let e = v[j + 1];
                if e == '"' || e == '\\' {
                    proof {
                        assert(s.skip(2) =~= v@.skip(j as int + 2));
                    }
                    let ghost acc0 = acc@;
                    acc.push(e);
                    proof {
                        match spec_parse_string_body(v@.skip(j as int + 2)) {
                            Some(p) => {
                                assert(acc0 + (seq![e] + p.0) =~= acc@ + p.0);
                            },
                            None => {},
                        }
                    }
                    j = j + 2;
                } else if e == 'u' {
                    if v.len() - j > 5 {
                        proof {
                            assert(s[2] == v@[j as int + 2]);
                            assert(s[3] == v@[j as int + 3]);
                            assert(s[4] == v@[j as int + 4]);
                            assert(s[5] == v@[j as int + 5]);
                        }
                        let d2 = hex_val_exec(v[j + 2]);
                        let d3 = hex_val_exec(v[j + 3]);
                        let d4 = hex_val_exec(v[j + 4]);
                        let d5 = hex_val_exec(v[j + 5]);
                        match (d2, d3, d4, d5) {
                            (Some(a), Some(b), Some(x), Some(y)) => {
                                let code: u32 = a * 4096 + b * 256 + x * 16 + y;
                                proof {
                                    assert(spec_escaped_code(s) == code as int);
                                }
                                if code < 32 {
                                    proof {
                                        assert(s.skip(6) =~= v@.skip(j as int + 6));
                                    }
                                    let ch = (code as u8) as char;
                                    let ghost acc0 = acc@;
                                    acc.push(ch);
                                    proof {
                                        match spec_parse_string_body(v@.skip(j as int + 6)) {
                                            Some(p) => {
                                                assert(acc0 + (seq![ch] + p.0) =~= acc@ + p.0);
                                            },
                                            None => {},
                                        }
                                    }
                                    j = j + 6;
                                } else {
                                    return None;
                                }
                            },
                            _ => {
                                return None;
                            },
                        }
                    } else {
                        proof {
                            assert(s.len() < 6);
                        }
                        return None;
                    }
                } else {
                    return None;
                }
            } else {
                proof {
                    assert(s.len() < 2);
                }
                return None;
            }
        } else if (c as u32) < 32 {
            return None;
        } else {
            proof {
                assert(s.skip(1) =~= v@.skip(j as int + 1));
            }
            let ghost acc0 = acc@;
            acc.push(c);
            proof {
                match spec_parse_string_body(v@.skip(j as int + 1)) {
                    Some(p) => {
                        assert(acc0 + (seq![c] + p.0) =~= acc@ + p.0);
                    },
                    None => {},
                }
            }
            j = j + 1;
        }
    }
}

/// Reads a quoted string starting at `i`.
fn parse_string(v: &Vec<char>, i: usize) -> (r: Option<(String, usize)>)
    requires
        i <= v@.len(),
    ensures
        match r {
            Some(p) => i <= p.1 <= v@.len() && spec_parse_string(v@.skip(i as int)) == Some(
                (p.0@, v@.skip(p.1 as int)),
            ),
            None => spec_parse_string(v@.skip(i as int)) is None,
        },
{
    if i < v.len() {
        proof {
            assert(v@.skip(i as int)[0] == v@[i as int]);
        }
        if v[i] == '"' {
            proof {
                assert(v@.skip(i as int).skip(1) =~= v@.skip(i as int + 1));
            }
            parse_string_body(v, i + 1)
        } else {
            None
        }
    } else {
        None
    }
}

/// Whether the characters of `p` stand at position `i` of `v`.
fn has_prefix_at(v: &Vec<char>, i: usize, p: &Vec<char>) -> (b: bool)
    requires
        i <= v@.len(),
    ensures
        b == p@.is_prefix_of(v@.skip(i as int)),
{
    let n = v.len();
    if n - i < p.len() {
        return false;
    }
    let mut k: usize = 0;
    while k < p.len()
        invariant
            k <= p@.len(),
            i <= v@.len(),
            n == v@.len(),
            p@.len() <= v@.len() - i,
            forall|m: int| 0 <= m < k ==> p@[m] == v@.skip(i as int)[m],
        decreases p@.len() - k,
    {
        proof {
            assert(v@.skip(i as int).len() == v@.len() - i);
            assert(i + k < n);
            assert(v@.skip(i as int)[k as int] == v@[i as int + k]);
        }
        if p[k] != v[i + k] {
            proof {
                assert(p@[k as int] != v@.skip(i as int)[k as int]);
                if p@.is_prefix_of(v@.skip(i as int)) {
                    assert(p@ =~= v@.skip(i as int).subrange(0, p@.len() as int));
                    assert(false);
                }
            }
            return false;
        }
        k = k + 1;
    }
    proof {
        assert(p@ =~= v@.skip(i as int).subrange(0, p@.len() as int));
    }
    true
}

/// Reads one entry object starting at `i`.
fn parse_entry(v: &Vec<char>, i: usize) -> (r: Option<(SkinData, usize)>)
    requires
        i <= v@.len(),
    ensures
        match r {
            Some(p) => i <= p.1 <= v@.len() && spec_parse_entry(v@.skip(i as int)) == Some(
                (p.0@, v@.skip(p.1 as int)),
            ),
            None => spec_parse_entry(v@.skip(i as int)) is None,
        },
{
    proof {
        reveal_strlit("{\"skinId\":");
        reveal_strlit(",\"modelName\":");
        assert(("{\"skinId\":")@ =~= lit_entry_open());
        assert((",\"modelName\":")@ =~= lit_model_key());
    }
    let open_lit = chars_of("{\"skinId\":");
    let key_lit = chars_of(",\"modelName\":");
    if !has_prefix_at(v, i, &open_lit) {
        return None;
    }
    let n = v.len();
    proof {
        assert(v@.skip(i as int).len() >= 10);
        assert(v@.skip(i as int).len() == v@.len() - i);
        assert(i + 10 <= n);
        assert(v@.skip(i as int).skip(10) =~= v@.skip(i as int + 10));
    }
    let r1 = match parse_string(v, i + 10) {
        Some(p) => p,
        None => {
            return None;
        },
    };
    let (id, j1) = r1;
    if !has_prefix_at(v, j1, &key_lit) {
        return None;
    }
    proof {
        assert(v@.skip(j1 as int).len() >= 13);
        assert(v@.skip(j1 as int).len() == v@.len() - j1);
        assert(j1 + 13 <= n);
        assert(v@.skip(j1 as int).skip(13) =~= v@.skip(j1 as int + 13));
    }
    let r2 = match parse_string(v, j1 + 13) {
        Some(p) => p,
        None => {
            return None;
        },
    };
    let (name, j2) = r2;
    if j2 < v.len() {
        proof {
            assert(v@.skip(j2 as int)[0] == v@[j2 as int]);
        }
        if v[j2] == '}' {
            proof {
                assert(v@.skip(j2 as int).skip(1) =~= v@.skip(j2 as int + 1));
            }
            let e = SkinData { skin_id: id, model_name: name };
            return Some((e, j2 + 1));
        }
    }
    None
}

/// Reads one or more comma-separated entries starting at `i`.
fn parse_entries(v: &Vec<char>, i: usize) -> (r: Option<(Vec<SkinData>, usize)>)
    requires
        i <= v@.len(),
    ensures
        match r {
            Some(p) => i <= p.1 <= v@.len() && spec_parse_entries(v@.skip(i as int)) == Some(
                (catalog_view(p.0@), v@.skip(p.1 as int)),
            ),
            None => spec_parse_entries(v@.skip(i as int)) is None,
        },
{
    let mut acc: Vec<SkinData> = Vec::new();
    let mut j: usize = i;
    proof {
        assert(catalog_view(acc@) =~= Seq::<SkinDataView>::empty());
    }
    loop
        invariant
            i <= j <= v@.len(),
            match spec_parse_entries(v@.skip(j as int)) {
                Some(p) => spec_parse_entries(v@.skip(i as int)) == Some(
                    (catalog_view(acc@) + p.0, p.1),
                ),
                None => spec_parse_entries(v@.skip(i as int)) is None,
            },
        decreases v@.len() - j,
    {
        let ghost s = v@.skip(j as int);
        let e = match parse_entry(v, j) {
            Some(p) => p,
            None => {
                return None;
            },
        };
        let (entry, j2) = e;
        proof {
            lemma_parse_entry_shrinks(s);
            assert(v@.skip(j2 as int).len() < s.len());
        }
        let mut more: bool = false;
        if j2 < v.len() {
            proof {
                assert(v@.skip(j2 as int)[0] == v@[j2 as int]);
            }
            if v[j2] == ',' {
                more = true;
            }
        }
        let ghost acc0 = catalog_view(acc@);
        if more {
            proof {
                assert(v@.skip(j2 as int).skip(1) =~= v@.skip(j2 as int + 1));
            }
            acc.push(entry);
            proof {
                assert(catalog_view(acc@) =~= acc0.push(entry@));
                match spec_parse_entries(v@.skip(j2 as int + 1)) {
                    Some(p) => {
                        assert(acc0 + (seq![entry@] + p.0) =~= catalog_view(acc@) + p.0);
                    },
                    None => {},
                }
            }
            j = j2 + 1;
        } else {
            proof {
                assert(spec_parse_entries(s) == Some((seq![entry@], v@.skip(j2 as int))));
            }
            acc.push(entry);
            proof {
                assert(catalog_view(acc@) =~= acc0.push(entry@));
                assert(acc0 + seq![entry@] =~= catalog_view(acc@));
            }
            return Some((acc, j2));
        }
    }
}

/// Reads a stored catalog back.  Succeeds exactly on well-formed compact
/// catalog text and yields its entries in stored order; anything else is
/// reported as corrupt.
pub fn parse_catalog(text: &str) -> (r: Result<Vec<SkinData>, LoadError>)
    ensures
        match r {
            Ok(c) => spec_parse_catalog(text@) == Some(catalog_view(c@)),
            Err(e) => spec_parse_catalog(text@) is None && e == LoadError::Corrupt,
        },
{
    let v = chars_of(text);
    if v.len() < 2 {
        return Err(LoadError::Corrupt);
    }
    if v[0] != '[' {
        return Err(LoadError::Corrupt);
    }
    if v.len() == 2 {
        if v[1] == ']' {
            proof {
                assert(text@ =~= seq!['[', ']']);
                assert(catalog_view(Seq::<SkinData>::empty()) =~= Seq::<SkinDataView>::empty());
            }
            let empty: Vec<SkinData> = Vec::new();
            proof {
                assert(catalog_view(empty@) =~= Seq::<SkinDataView>::empty());
            }
            return Ok(empty);
        }
    }
    proof {
        if text@ == seq!['[', ']'] {
            assert(text@.len() == 2);
            assert(text@[1] == ']');
            assert(false);
        }
        assert(v@.skip(1) == text@.skip(1));
    }
    let p = match parse_entries(&v, 1) {
        Some(p) => p,
        None => {
            return Err(LoadError::Corrupt);
        },
    };
    let (es, j) = p;
    if j < v.len() && j + 1 == v.len() {
        proof {
            assert(v@.skip(j as int)[0] == v@[j as int]);
        }
        if v[j] == ']' {
            proof {
                assert(v@.skip(j as int) =~= seq![']']);
            }
            return Ok(es);
        }
        proof {
            assert(v@.skip(j as int)[0] != ']');
            if v@.skip(j as int) == seq![']'] {
                assert(false);
            }
        }
        return Err(LoadError::Corrupt);
    }
    proof {
        if v@.skip(j as int) == seq![']'] {
            assert(v@.skip(j as int).len() == 1);
            assert(false);
        }
    }
    Err(LoadError::Corrupt)
}

/// A catalog written by the encoder and read back by the parser comes back
/// unchanged: the stored format loses nothing, whatever the entries hold.
pub proof fn lemma_catalog_round_trip(c: Seq<SkinDataView>)
    ensures
        spec_parse_catalog(spec_encode_catalog(c)) == Some(c),
{
    let s = spec_encode_catalog(c);
    if c.len() == 0 {
        assert(s =~= seq!['[', ']']);
        assert(c =~= Seq::<SkinDataView>::empty());
    } else {
        let rest = seq![']'];
        assert(s[0] == '[');
        assert(spec_encode_entries(c).len() >= 10) by {
            assert(spec_encode_entry(c[0]).len() >= 10);
        }
        assert(s.len() > 2);
        assert(s != seq!['[', ']']);
        assert(s.skip(1) =~= spec_encode_entries(c) + rest);
        lemma_parse_entries_of_encoded(c, rest);
    }
}

} // verus!
