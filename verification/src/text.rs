//! Text helpers shared by the catalog: case folding and the
//! deduplication key of a display name.

use vstd::prelude::*;

verus! {

/// Unicode lowercasing of a character sequence, as `str::to_lowercase`
/// computes it: a function of the characters alone.
pub uninterp spec fn lower_of(s: Seq<char>) -> Seq<char>;

/// Whether `char::is_alphanumeric` accepts the character: a fixed
/// classification of the character alone.
pub uninterp spec fn char_alphanumeric(c: char) -> bool;

/// Relies on `str::to_lowercase`: the Unicode lowercase mapping of the
/// string, which depends on the input characters alone.
#[verifier::external_body]
fn to_lowercase_str(s: &str) -> (r: String)
    ensures
        r@ == lower_of(s@),
{
    s.to_lowercase()
}

/// Relies on `char::is_alphanumeric`: a fixed classification of the
/// character.
#[verifier::external_body]
fn is_alphanumeric_char(c: char) -> (r: bool)
    ensures
        r == char_alphanumeric(c),
{
    c.is_alphanumeric()
}

/// Relies on `String::push`: appends exactly the one character.
pub assume_specification[ String::push ](s: &mut String, c: char)
    ensures
        final(s)@ == old(s)@.push(c),
;

/// The subsequence of alphanumeric characters, in order.
pub open spec fn keep_alnum(s: Seq<char>) -> Seq<char>
    decreases s.len(),
{
    if s.len() == 0 {
        Seq::empty()
    } else if char_alphanumeric(s[0]) {
        seq![s[0]] + keep_alnum(s.drop_first())
    } else {
        keep_alnum(s.drop_first())
    }
}

/// The deduplication key of a display name: case-folded, with
/// non-alphanumeric characters stripped.
pub open spec fn key_of(name: Seq<char>) -> Seq<char> {
    keep_alnum(lower_of(name))
}

/// Computes the deduplication key of a display name.
pub fn normalize_name(s: &str) -> (r: String)
    ensures
        r@ == key_of(s@),
{
    let low = to_lowercase_str(s);
    let n = low.as_str().unicode_len();
    let mut r = String::new();
    let mut i: usize = 0;
    proof {
        assert(low@.skip(0) =~= low@);
        assert(keep_alnum(low@) =~= r@ + keep_alnum(low@));
    }
    while i < n
        invariant
            n == low@.len(),
            i <= n,
            keep_alnum(low@) =~= r@ + keep_alnum(low@.skip(i as int)),
        decreases n - i,
    {
        let c = low.as_str().get_char(i);
        proof {
            assert(low@.skip(i as int)[0] == low@[i as int]);
            assert(low@.skip(i as int).drop_first() =~= low@.skip(i as int + 1));
        }
        if is_alphanumeric_char(c) {
            r.push(c);
        }
        i = i + 1;
    }
    proof {
        assert(low@.skip(n as int) =~= Seq::<char>::empty());
    }
    r
}

} // verus!
