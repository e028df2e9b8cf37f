//! Canonicalization of free-text answers.
//!
//! A guess matches an entry when both sides agree after normalization: the
//! text is lowercased, separator punctuation is stripped, two accented
//! letters fold to their ASCII base, and a small fixed table maps known
//! non-Latin (or accented) display names to canonical Latin slugs.
//! Lowercasing is std's `str::to_lowercase`, taken on trust under the name
//! `lower_of`; the stripping, folding and alias steps are fully specified
//! and proved.  The alias table is consulted after the generic pass, so its
//! keys are written in already-lowercased, stripped form.
use vstd::prelude::*;

verus! {

/// What std's `str::to_lowercase` returns for a string: a function of the
/// characters alone.
pub uninterp spec fn lower_of(s: Seq<char>) -> Seq<char>;

/// Relies on std's `str::to_lowercase`: the result depends on the
/// characters alone, and an empty string stays empty.
#[verifier::external_body]
fn lowercase(s: &str) -> (r: String)
    ensures
        r@ == lower_of(s@),
        s@.len() == 0 ==> r@.len() == 0,
{
    s.to_lowercase()
}

/// Relies on std's `String::push`: appends one character to the string.
pub assume_specification[ String::push ](s: &mut String, c: char)
    ensures
        final(s)@ == old(s)@.push(c),
;

/// Characters removed outright by normalization.
pub open spec fn is_stripped(c: char) -> bool {
    c == ' ' || c == '-' || c == '\'' || c == '"'
}

/// Folds the accented lowercase letters that appear in catalog names to
/// their ASCII base letter.
pub open spec fn spec_fold_char(c: char) -> char {
    if c == 'ł' { 'l' } else if c == 'š' { 's' } else { c }
}

/// The generic pass over lowercased text: drop stripped characters and
/// fold accented letters.
pub open spec fn spec_canon(s: Seq<char>) -> Seq<char>
    decreases s.len(),
{
    if s.len() == 0 {
        Seq::empty()
    } else if is_stripped(s[0]) {
        spec_canon(s.drop_first())
    } else {
        seq![spec_fold_char(s[0])] + spec_canon(s.drop_first())
    }
}

/// A character that the generic pass leaves in place unchanged.
pub open spec fn is_canon_char(c: char) -> bool {
    &&& !is_stripped(c)
    &&& spec_fold_char(c) == c
}

/// The alias table, consulted on the output of the generic pass: known
/// non-Latin (or accented) display names map to fixed Latin slugs.
pub open spec fn spec_alias(s: Seq<char>) -> Seq<char> {
    if s == key_istina() { val_istina() }
    else if s == key_zima() { val_zima() }
    else if s == key_gummy() { val_gummy() }
    else if s == key_leto() { val_leto() }
    else if s == key_rosa() { val_rosa() }
    else if s == key_pozemka() { val_pozemka() }
    else if s == key_eyja() { val_eyja() }
    else { s }
}

pub open spec fn key_istina() -> Seq<char> { seq!['и', 'с', 'т', 'и', 'н', 'а'] }

pub open spec fn val_istina() -> Seq<char> { seq!['i', 's', 't', 'i', 'n', 'a'] }

pub open spec fn key_zima() -> Seq<char> { seq!['з', 'и', 'м', 'а'] }

pub open spec fn val_zima() -> Seq<char> { seq!['z', 'i', 'm', 'a'] }

pub open spec fn key_gummy() -> Seq<char> { seq!['г', 'у', 'м'] }

pub open spec fn val_gummy() -> Seq<char> { seq!['g', 'u', 'm', 'm', 'y'] }

pub open spec fn key_leto() -> Seq<char> { seq!['л', 'е', 'т', 'о'] }

pub open spec fn val_leto() -> Seq<char> { seq!['l', 'e', 't', 'o'] }

pub open spec fn key_rosa() -> Seq<char> { seq!['р', 'о', 'с', 'а'] }

pub open spec fn val_rosa() -> Seq<char> { seq!['r', 'o', 's', 'a'] }

pub open spec fn key_pozemka() -> Seq<char> { seq!['п', 'о', 'з', 'ё', 'м', 'к', 'а'] }

pub open spec fn val_pozemka() -> Seq<char> { seq!['p', 'o', 'z', 'e', 'm', 'k', 'a'] }

pub open spec fn key_eyja() -> Seq<char> {
    seq!['e', 'y', 'j', 'a', 'f', 'j', 'a', 'l', 'l', 'a', 't', 'h', 'e', 'h', 'v', 'í',
        't', 'a', 's', 'k', 'a']
}

pub open spec fn val_eyja() -> Seq<char> {
    seq!['e', 'y', 'j', 'a', 'f', 'j', 'a', 'l', 'l', 'a', 't', 'h', 'e', 'h', 'v', 'i',
        't', 'a', 's', 'k', 'a']
}

/// What `normalise_name` computes: lowercase, then the generic pass, then
/// the alias table.
pub open spec fn spec_normalise(s: Seq<char>) -> Seq<char> {
    spec_alias(spec_canon(lower_of(s)))
}

fn fold_char(c: char) -> (r: char)
    ensures
        r == spec_fold_char(c),
{
    if c == 'ł' { 'l' } else if c == 'š' { 's' } else { c }
}

fn stripped(c: char) -> (b: bool)
    ensures
        b == is_stripped(c),
{
    c == ' ' || c == '-' || c == '\'' || c == '"'
}

/// Runs the generic pass over a string, yielding its canonical characters.
fn canon_chars(name: &str) -> (v: Vec<char>)
    ensures
        v@ == spec_canon(name@),
{
    let n = name.unicode_len();
    let mut v: Vec<char> = Vec::new();
    let mut i: usize = 0;
    proof {
        assert(name@.skip(0) =~= name@);
        assert(v@ + spec_canon(name@) =~= spec_canon(name@));
    }
    while i < n
        invariant
            i <= n,
            n == name@.len(),
            v@ + spec_canon(name@.skip(i as int)) == spec_canon(name@),
        decreases n - i,
    {
        let c = name.get_char(i);
        proof {
            assert(name@.skip(i as int)[0] == name@[i as int]);
            assert(name@.skip(i as int).drop_first() =~= name@.skip(i as int + 1));
        }
        if !stripped(c) {
            let f = fold_char(c);
            v.push(f);
            proof {
                assert(v@ + spec_canon(name@.skip(i as int + 1)) =~= spec_canon(name@));
            }
        }
        i = i + 1;
    }
    proof {
        assert(name@.skip(n as int) =~= Seq::<char>::empty());
        assert(v@ =~= spec_canon(name@));
    }
    v
}

/// Compares a character vector against the characters of a string slice.
fn chars_eq_str(v: &Vec<char>, s: &str) -> (b: bool)
    ensures
        b == (v@ == s@),
{
    let n = s.unicode_len();
    if v.len() != n {
        return false;
    }
    let mut i: usize = 0;
    while i < n
        invariant
            i <= n,
            n == s@.len(),
            v@.len() == n,
            forall|j: int| 0 <= j < i ==> v@[j] == s@[j],
        decreases n - i,
    {
        if v[i] != s.get_char(i) {
            return false;
        }
        i = i + 1;
    }
    proof {
        assert(v@ =~= s@);
    }
    true
}

/// Builds an owned string out of a character vector.
fn string_from_chars(v: &Vec<char>) -> (r: String)
    ensures
        r@ == v@,
{
    let mut r = String::new();
    let mut i: usize = 0;
    while i < v.len()
        invariant
            i <= v@.len(),
            r@ == v@.take(i as int),
        decreases v@.len() - i,
    {
        r.push(v[i]);
        proof {
            assert(v@.take(i as int).push(v@[i as int]) =~= v@.take(i as int + 1));
        }
        i = i + 1;
    }
    proof {
        assert(v@.take(v@.len() as int) =~= v@);
    }
    r
}

/// Canonicalizes a free-text name for comparison: lowercases it, strips
/// separator punctuation, folds the known accented letters, then applies
/// the alias table to the result.
pub fn normalise_name(name: &str) -> (r: String)
    ensures
        r@ == spec_normalise(name@),
{
    proof {
        reveal_strlit("истина");
        reveal_strlit("istina");
        reveal_strlit("зима");
        reveal_strlit("zima");
        reveal_strlit("гум");
        reveal_strlit("gummy");
        reveal_strlit("лето");
        reveal_strlit("leto");
        reveal_strlit("роса");
        reveal_strlit("rosa");
        reveal_strlit("позёмка");
        reveal_strlit("pozemka");
        reveal_strlit("eyjafjallathehvítaska");
        reveal_strlit("eyjafjallathehvitaska");
        assert(("истина")@ =~= key_istina());
        assert(("istina")@ =~= val_istina());
        assert(("зима")@ =~= key_zima());
        assert(("zima")@ =~= val_zima());
        assert(("гум")@ =~= key_gummy());
        assert(("gummy")@ =~= val_gummy());
        assert(("лето")@ =~= key_leto());
        assert(("leto")@ =~= val_leto());
        assert(("роса")@ =~= key_rosa());
        assert(("rosa")@ =~= val_rosa());
        assert(("позёмка")@ =~= key_pozemka());
        assert(("pozemka")@ =~= val_pozemka());
        assert(("eyjafjallathehvítaska")@ =~= key_eyja());
        assert(("eyjafjallathehvitaska")@ =~= val_eyja());
    }
    let lowered = lowercase(name);
    let canon = canon_chars(lowered.as_str());
    if chars_eq_str(&canon, "истина") {
        String::from_str("istina")
    } else if chars_eq_str(&canon, "зима") {
        String::from_str("zima")
    } else if chars_eq_str(&canon, "гум") {
        String::from_str("gummy")
    } else if chars_eq_str(&canon, "лето") {
        String::from_str("leto")
    } else if chars_eq_str(&canon, "роса") {
        String::from_str("rosa")
    } else if chars_eq_str(&canon, "позёмка") {
        String::from_str("pozemka")
    } else if chars_eq_str(&canon, "eyjafjallathehvítaska") {
        String::from_str("eyjafjallathehvitaska")
    } else {
        string_from_chars(&canon)
    }
}

/// Every character that the generic pass emits is one it would leave alone.
pub proof fn lemma_canon_all_canon(s: Seq<char>)
    ensures
        forall|i: int|
            0 <= i < spec_canon(s).len() ==> is_canon_char(#[trigger] spec_canon(s)[i]),
    decreases s.len(),
{
    if s.len() == 0 {
    } else {
        lemma_canon_all_canon(s.drop_first());
        let rest = spec_canon(s.drop_first());
        if !is_stripped(s[0]) {
            assert(is_canon_char(spec_fold_char(s[0])));
            assert(spec_canon(s) == seq![spec_fold_char(s[0])] + rest);
            assert forall|i: int|
                0 <= i < spec_canon(s).len() implies is_canon_char(
                #[trigger] spec_canon(s)[i],
            ) by {
                if i == 0 {
                    assert(spec_canon(s)[0] == spec_fold_char(s[0]));
                } else {
                    assert(spec_canon(s)[i] == rest[i - 1]);
                }
            }
        }
    }
}

/// The generic pass leaves a string of canonical characters unchanged.
pub proof fn lemma_canon_fixed(s: Seq<char>)
    requires
        forall|i: int| 0 <= i < s.len() ==> is_canon_char(#[trigger] s[i]),
    ensures
        spec_canon(s) == s,
    decreases s.len(),
{
    if s.len() == 0 {
        assert(spec_canon(s) =~= s);
    } else {
        assert(forall|i: int|
            0 <= i < s.drop_first().len() ==> is_canon_char(#[trigger] s.drop_first()[i]));
        lemma_canon_fixed(s.drop_first());
        assert(is_canon_char(s[0]));
        assert(spec_canon(s) =~= s);
    }
}

/// The alias table does not touch a string made of ASCII characters:
/// every key holds at least one character outside ASCII.
pub proof fn lemma_ascii_not_key(v: Seq<char>)
    requires
        forall|i: int| 0 <= i < v.len() ==> ((#[trigger] v[i]) as u32) < 128,
    ensures
        spec_alias(v) == v,
{
    if v == key_istina() {
        assert(v[0] == 'и');
        assert(false);
    }
    if v == key_zima() {
        assert(v[0] == 'з');
        assert(false);
    }
    if v == key_gummy() {
        assert(v[0] == 'г');
        assert(false);
    }
    if v == key_leto() {
        assert(v[0] == 'л');
        assert(false);
    }
    if v == key_rosa() {
        assert(v[0] == 'р');
        assert(false);
    }
    if v == key_pozemka() {
        assert(v[0] == 'п');
        assert(false);
    }
    if v == key_eyja() {
        assert(v[15] == 'í');
        assert(false);
    }
}

/// A slug of lowercase ASCII letters passes the generic pass and the alias
/// table unchanged.
pub proof fn lemma_slug_fixed(v: Seq<char>)
    requires
        forall|i: int| 0 <= i < v.len() ==> 'a' <= #[trigger] v[i] && v[i] <= 'z',
    ensures
        spec_canon(v) == v,
        spec_alias(v) == v,
{
    assert(forall|i: int| 0 <= i < v.len() ==> is_canon_char(#[trigger] v[i]));
    lemma_canon_fixed(v);
    lemma_ascii_not_key(v);
}

/// Normalization is idempotent: on every string whose normalized form the
/// external case folding maps to itself — which holds of std's
/// `to_lowercase`, since a normalized form is lowercase text — normalizing
/// twice equals normalizing once.  The hypothesis is stated through the
/// name `lower_of` because the folding itself is trusted, not modeled.
pub proof fn lemma_normalise_idempotent()
    ensures
        forall|s: Seq<char>|
            lower_of(#[trigger] spec_normalise(s)) == spec_normalise(s)
                ==> spec_normalise(spec_normalise(s)) == spec_normalise(s),
{
    assert forall|s: Seq<char>|
        lower_of(#[trigger] spec_normalise(s)) == spec_normalise(s)
            implies spec_normalise(spec_normalise(s)) == spec_normalise(s) by {
        let c = spec_canon(lower_of(s));
        if c == key_istina() {
            lemma_slug_fixed(val_istina());
        } else if c == key_zima() {
            lemma_slug_fixed(val_zima());
        } else if c == key_gummy() {
            lemma_slug_fixed(val_gummy());
        } else if c == key_leto() {
            lemma_slug_fixed(val_leto());
        } else if c == key_rosa() {
            lemma_slug_fixed(val_rosa());
        } else if c == key_pozemka() {
            lemma_slug_fixed(val_pozemka());
        } else if c == key_eyja() {
            lemma_slug_fixed(val_eyja());
        } else {
            lemma_canon_all_canon(lower_of(s));
            lemma_canon_fixed(c);
        }
    }
}

/// An aliased name yields its fixed Latin slug from any casing: every
/// spelling that lowercases to the first alias key normalizes to that
/// key's slug, and the lowercase spelling of the key is such a spelling
/// whenever the folding maps it to itself.
pub proof fn lemma_alias_case_insensitive()
    ensures
        forall|s: Seq<char>|
            #[trigger] lower_of(s) == key_istina() ==> spec_normalise(s) == val_istina(),
{
    assert forall|s: Seq<char>|
        #[trigger] lower_of(s) == key_istina() implies spec_normalise(s) == val_istina() by {
        assert(forall|i: int|
            0 <= i < key_istina().len() ==> is_canon_char(#[trigger] key_istina()[i]));
        lemma_canon_fixed(key_istina());
    }
}

} // verus!
