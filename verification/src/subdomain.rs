//! Subdomain labels: the DNS-label grammar that allocation requests must
//! satisfy, and derivation of a random label from fresh entropy.
//!
//! The grammar admits exactly the strings of 1 to 63 characters drawn from
//! lowercase letters, digits and `-`, where the first and last character are
//! not `-`. Uppercase is refused on purpose: browsers lowercase host names.

use vstd::prelude::*;
use vstd::string::StrSliceExecFns;
use vstd::string::StringExecFns;
use crate::auth::ServerError;

verus! {

/// A lowercase letter or a digit.
pub open spec fn is_lower_alnum(c: char) -> bool {
    ('a' <= c && c <= 'z') || ('0' <= c && c <= '9')
}

/// A character the grammar admits in the interior of a label.
pub open spec fn is_label_char(c: char) -> bool {
    is_lower_alnum(c) || c == '-'
}

/// The subdomain grammar: 1 to 63 label characters, with a lowercase letter
/// or digit at both ends.
pub open spec fn is_valid_subdomain(s: Seq<char>) -> bool {
    &&& 1 <= s.len() <= 63
    &&& is_lower_alnum(s[0])
    &&& is_lower_alnum(s[s.len() - 1])
    &&& forall|i: int| 0 <= i < s.len() ==> is_label_char(#[trigger] s[i])
}

fn is_lower_alnum_exec(c: char) -> (r: bool)
    ensures
        r == is_lower_alnum(c),
{
    ('a' <= c && c <= 'z') || ('0' <= c && c <= '9')
}

/// Whether `endpoint` is a well-formed subdomain label.
///
/// The `Result` never carries an error; it is kept so that callers see the
/// same shape whether validation itself can fail or not.
pub fn validate_endpoint(endpoint: &str) -> (r: Result<bool, ServerError>)
    ensures
        r == Ok::<bool, ServerError>(is_valid_subdomain(endpoint@)),
{
    let len = endpoint.unicode_len();
    if len < 1 || len > 63 {
        return Ok(false);
    }
    if !is_lower_alnum_exec(endpoint.get_char(0)) {
        return Ok(false);
    }
    if !is_lower_alnum_exec(endpoint.get_char(len - 1)) {
        return Ok(false);
    }
    let mut i: usize = 0;
    while i < len
        invariant
            i <= len,
            len == endpoint@.len(),
            forall|j: int| 0 <= j < i ==> is_label_char(#[trigger] endpoint@[j]),
        decreases len - i,
    {
        let c = endpoint.get_char(i);
        if !(is_lower_alnum_exec(c) || c == '-') {
            return Ok(false);
        }
        i += 1;
    }
    Ok(true)
}

/// The alphabet a random label is drawn from: `a`..`z` then `0`..`9`.
pub open spec fn alnum36(v: int) -> char
    recommends
        0 <= v < 36,
{
    if v == 0 { 'a' } else if v == 1 { 'b' } else if v == 2 { 'c' } else if v == 3 { 'd' }
    else if v == 4 { 'e' } else if v == 5 { 'f' } else if v == 6 { 'g' } else if v == 7 { 'h' }
    else if v == 8 { 'i' } else if v == 9 { 'j' } else if v == 10 { 'k' } else if v == 11 { 'l' }
    else if v == 12 { 'm' } else if v == 13 { 'n' } else if v == 14 { 'o' } else if v == 15 { 'p' }
    else if v == 16 { 'q' } else if v == 17 { 'r' } else if v == 18 { 's' } else if v == 19 { 't' }
    else if v == 20 { 'u' } else if v == 21 { 'v' } else if v == 22 { 'w' } else if v == 23 { 'x' }
    else if v == 24 { 'y' } else if v == 25 { 'z' } else if v == 26 { '0' } else if v == 27 { '1' }
    else if v == 28 { '2' } else if v == 29 { '3' } else if v == 30 { '4' } else if v == 31 { '5' }
    else if v == 32 { '6' } else if v == 33 { '7' } else if v == 34 { '8' } else { '9' }
}

proof fn lemma_alnum36_lower_alnum(v: int)
    requires
        0 <= v < 36,
    ensures
        is_lower_alnum(alnum36(v)),
{
}

fn alnum36_str(v: u8) -> (r: &'static str)
    requires
        v < 36,
    ensures
        r@ =~= seq![alnum36(v as int)],
{
    proof {
        reveal_strlit("a"); reveal_strlit("b"); reveal_strlit("c"); reveal_strlit("d");
        reveal_strlit("e"); reveal_strlit("f"); reveal_strlit("g"); reveal_strlit("h");
        reveal_strlit("i"); reveal_strlit("j"); reveal_strlit("k"); reveal_strlit("l");
        reveal_strlit("m"); reveal_strlit("n"); reveal_strlit("o"); reveal_strlit("p");
        reveal_strlit("q"); reveal_strlit("r"); reveal_strlit("s"); reveal_strlit("t");
        reveal_strlit("u"); reveal_strlit("v"); reveal_strlit("w"); reveal_strlit("x");
        reveal_strlit("y"); reveal_strlit("z"); reveal_strlit("0"); reveal_strlit("1");
        reveal_strlit("2"); reveal_strlit("3"); reveal_strlit("4"); reveal_strlit("5");
        reveal_strlit("6"); reveal_strlit("7"); reveal_strlit("8"); reveal_strlit("9");
    }
    match v {
        0 => "a", 1 => "b", 2 => "c", 3 => "d", 4 => "e", 5 => "f", 6 => "g", 7 => "h",
        8 => "i", 9 => "j", 10 => "k", 11 => "l", 12 => "m", 13 => "n", 14 => "o", 15 => "p",
        16 => "q", 17 => "r", 18 => "s", 19 => "t", 20 => "u", 21 => "v", 22 => "w", 23 => "x",
        24 => "y", 25 => "z", 26 => "0", 27 => "1", 28 => "2", 29 => "3", 30 => "4", 31 => "5",
        32 => "6", 33 => "7", 34 => "8", _ => "9",
    }
}

/// The label determined by the first [`RANDOM_LABEL_LEN`] entropy bytes.
pub open spec fn random_label_of(seed: Seq<u8>) -> Seq<char>
    recommends
        seed.len() >= RANDOM_LABEL_LEN,
{
    Seq::new(RANDOM_LABEL_LEN as nat, |i: int| alnum36((seed[i] % 36) as int))
}

pub const RANDOM_LABEL_LEN: usize = 8;

/// Turns fresh entropy bytes into a random subdomain label of length 8.
/// The label is always valid under the grammar.
pub fn random_subdomain(seed: &Vec<u8>) -> (r: String)
    requires
        seed@.len() >= RANDOM_LABEL_LEN,
    ensures
        r@ == random_label_of(seed@),
        is_valid_subdomain(r@),
{
    let mut s = String::new();
    let mut i: usize = 0;
    while i < RANDOM_LABEL_LEN
        invariant
            i <= RANDOM_LABEL_LEN,
            seed@.len() >= RANDOM_LABEL_LEN,
            s@ =~= random_label_of(seed@).take(i as int),
        decreases RANDOM_LABEL_LEN - i,
    {
        let piece = alnum36_str(seed[i] % 36);
        s.append(piece);
        proof {
            assert(s@ =~= random_label_of(seed@).take(i + 1));
        }
        i += 1;
    }
    proof {
        assert(s@ =~= random_label_of(seed@));
        assert forall|j: int| 0 <= j < RANDOM_LABEL_LEN as int implies is_lower_alnum(
            #[trigger] random_label_of(seed@)[j],
        ) by {
            lemma_alnum36_lower_alnum((seed@[j] % 36) as int);
        }
    }
    s
}

} // verus!
