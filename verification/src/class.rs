//! The scoping qualifier: a short class identifier derived deterministically
//! from a content seed (the unscoped source text of a style block).  The same
//! seed always yields the same qualifier, so builds are reproducible; any
//! change to the seed changes the fingerprint with high probability.

use vstd::prelude::*;

use crate::text::{chars_to_string, push_all, str_chars};

verus! {

/// FNV-1a 64-bit offset basis.
pub const FNV_OFFSET: u64 = 0xcbf29ce484222325;

/// FNV-1a 64-bit prime.
pub const FNV_PRIME: u64 = 0x100000001b3;

/// One FNV-1a step: fold a character's code point into the running hash.
pub open spec fn fingerprint_step(h: u64, c: char) -> u64 {
    vstd::wrapping::u64_specs::wrapping_mul(h ^ (c as u64), FNV_PRIME)
}

/// Hash of the first `n` characters of `s`.
pub open spec fn fingerprint_upto(s: Seq<char>, n: int) -> u64
    decreases n,
{
    if n <= 0 {
        FNV_OFFSET
    } else {
        fingerprint_step(fingerprint_upto(s, n - 1), s[n - 1])
    }
}

/// FNV-1a 64-bit hash of a character sequence.
pub open spec fn fingerprint(s: Seq<char>) -> u64 {
    fingerprint_upto(s, s.len() as int)
}

/// The base-36 digit alphabet used to render fingerprints.
pub open spec fn digit_alphabet() -> Seq<char> {
    "0123456789abcdefghijklmnopqrstuvwxyz"@
}

/// `k` base-36 digits of `h`, least significant first.
pub open spec fn spec_digits(h: u64, k: nat) -> Seq<char>
    decreases k,
{
    if k == 0 {
        Seq::empty()
    } else {
        seq![digit_alphabet()[(h % 36) as int]] + spec_digits(h / 36, (k - 1) as nat)
    }
}

/// Number of digits rendered into every class name.
pub const NAME_DIGITS: usize = 13;

/// The class name derived from a seed: a leading `l-` followed by the
/// base-36 rendering of the seed's fingerprint.
pub open spec fn spec_class_name(seed: Seq<char>) -> Seq<char> {
    seq!['l', '-'] + spec_digits(fingerprint(seed), NAME_DIGITS as nat)
}

/// The selector-fragment form of a class name: a leading dot.
pub open spec fn spec_selector_fragment(name: Seq<char>) -> Seq<char> {
    seq!['.'] + name
}

/// A scoping qualifier, built once per style block and threaded by reference
/// through the whole parse of that block.
pub struct Class {
    name: Vec<char>,
}

impl View for Class {
    type V = Seq<char>;

    closed spec fn view(&self) -> Seq<char> {
        self.name@
    }
}

fn digit_char(d: u64) -> (c: char)
    requires
        d < 36,
    ensures
        c == digit_alphabet()[d as int],
{
    let alpha = "0123456789abcdefghijklmnopqrstuvwxyz";
    proof {
        reveal_strlit("0123456789abcdefghijklmnopqrstuvwxyz");
    }
    alpha.get_char(d as usize)
}

fn digits(h: u64, k: usize) -> (v: Vec<char>)
    ensures
        v@ == spec_digits(h, k as nat),
    decreases k,
{
    if k == 0 {
        Vec::new()
    } else {
        let mut v: Vec<char> = Vec::new();
        v.push(digit_char(h % 36));
        let rest = digits(h / 36, k - 1);
        push_all(&mut v, &rest);
        proof {
            assert(v@ =~= seq![digit_alphabet()[(h % 36) as int]] + spec_digits(
                h / 36,
                (k - 1) as nat,
            ));
        }
        v
    }
}

fn fingerprint_chars(s: &Vec<char>) -> (h: u64)
    ensures
        h == fingerprint(s@),
{
    let n = s.len();
    let mut h: u64 = FNV_OFFSET;
    let mut i: usize = 0;
    while i < n
        invariant
            0 <= i <= n,
            n == s@.len(),
            h == fingerprint_upto(s@, i as int),
        decreases n - i,
    {
        h = (h ^ (s[i] as u64)).wrapping_mul(FNV_PRIME);
        i = i + 1;
    }
    h
}

impl Class {
    /// Wrap an already chosen class name.
    pub fn new(name: String) -> (c: Class)
        ensures
            c@ == name@,
    {
        Class { name: str_chars(name.as_str()) }
    }

    /// Derive the qualifier from a content seed.  The result is a function of
    /// the seed alone, so identical seeds yield identical qualifiers across
    /// separate runs.
    pub fn rand_class_from_seed(seed: String) -> (c: Class)
        ensures
            c@ == spec_class_name(seed@),
    {
        let chars = str_chars(seed.as_str());
        let h = fingerprint_chars(&chars);
        let mut name: Vec<char> = Vec::new();
        name.push('l');
        name.push('-');
        let ds = digits(h, NAME_DIGITS);
        push_all(&mut name, &ds);
        proof {
            assert(name@ =~= spec_class_name(seed@));
        }
        Class { name }
    }

    /// The bare identifier, as inserted into markup attributes.
    pub fn as_name(&self) -> (s: String)
        ensures
            s@ == self@,
    {
        chars_to_string(&self.name)
    }

    /// The selector-fragment form: the identifier with a leading dot, as
    /// spliced into rewritten selectors.
    pub fn as_selector(&self) -> (s: String)
        ensures
            s@ == spec_selector_fragment(self@),
    {
        let v = self.selector_chars();
        chars_to_string(&v)
    }

    /// The selector fragment as a character vector, for the rewriting core.
    pub(crate) fn selector_chars(&self) -> (v: Vec<char>)
        ensures
            v@ == spec_selector_fragment(self@),
    {
        let mut v: Vec<char> = Vec::new();
        v.push('.');
        push_all(&mut v, &self.name);
        proof {
            assert(v@ =~= spec_selector_fragment(self@));
        }
        v
    }
}

/// Law: the qualifier is deterministic — the class name derived from a seed
/// is a function of the seed's characters alone, so two equal seeds always
/// yield the same qualifier.
pub proof fn lemma_class_name_deterministic(s1: Seq<char>, s2: Seq<char>)
    requires
        s1 == s2,
    ensures
        spec_class_name(s1) == spec_class_name(s2),
{
}

} // verus!
