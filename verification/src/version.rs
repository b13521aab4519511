//! Semantic versions `major.minor.patch`, parsed from the strings the
//! catalog and the loaded sources carry, and ordered lexicographically.

use crate::numfmt::{
    dec_digits, is_digit, lemma_parse_num_of_digits, parse_num, scan_num, suffix, u64_to_dec,
};
use vstd::prelude::*;

verus! {

/// A semantic version.
#[derive(Clone, Copy, Debug, PartialEq, Eq, Structural)]
pub struct Version {
    pub major: u64,
    pub minor: u64,
    pub patch: u64,
}

/// Reading `major.minor.patch` with nothing around it; `None` on anything
/// else.
pub open spec fn parse_version_spec(s: Seq<char>) -> Option<Version> {
    match parse_num(s) {
        None => None,
        Some((a, r)) => {
            if r.len() < 1 || r[0] != '.' {
                None
            } else {
                match parse_num(r.drop_first()) {
                    None => None,
                    Some((b, r2)) => {
                        if r2.len() < 1 || r2[0] != '.' {
                            None
                        } else {
                            match parse_num(r2.drop_first()) {
                                None => None,
                                Some((c, r3)) => {
                                    if r3.len() != 0 {
                                        None
                                    } else {
                                        Some(
                                            Version {
                                                major: a as u64,
                                                minor: b as u64,
                                                patch: c as u64,
                                            },
                                        )
                                    }
                                },
                            }
                        }
                    },
                }
            }
        },
    }
}

/// Strict lexicographic order on versions.
pub open spec fn version_lt(a: Version, b: Version) -> bool {
    a.major < b.major || (a.major == b.major && (a.minor < b.minor || (a.minor == b.minor
        && a.patch < b.patch)))
}

/// The rendered form of a version.
pub open spec fn version_chars(v: Version) -> Seq<char> {
    dec_digits(v.major as nat) + seq!['.'] + dec_digits(v.minor as nat) + seq!['.'] + dec_digits(
        v.patch as nat,
    )
}

impl Version {
    /// Reads a version string; `None` when `s` is not exactly
    /// `major.minor.patch` in decimal.
    pub fn parse(s: &str) -> (r: Option<Version>)
        ensures
            r == parse_version_spec(s@),
    {
        let n = s.unicode_len();
        proof {
            assert(suffix(s@, 0) =~= s@);
        }
        match scan_num(s, 0) {
            None => None,
            Some((a, p)) => {
                if p == n {
                    return None;
                }
                let c1 = s.get_char(p);
                proof {
                    assert(suffix(s@, p as int)[0] == s@[p as int]);
                    assert(suffix(s@, p as int).drop_first() =~= suffix(s@, (p + 1) as int));
                }
                if c1 != '.' {
                    return None;
                }
                match scan_num(s, p + 1) {
                    None => None,
                    Some((b, p2)) => {
                        if p2 == n {
                            return None;
                        }
                        let c2 = s.get_char(p2);
                        proof {
                            assert(suffix(s@, p2 as int)[0] == s@[p2 as int]);
                            assert(suffix(s@, p2 as int).drop_first() =~= suffix(
                                s@,
                                (p2 + 1) as int,
                            ));
                        }
                        if c2 != '.' {
                            return None;
                        }
                        match scan_num(s, p2 + 1) {
                            None => None,
                            Some((c, p3)) => {
                                if p3 == n {
                                    Some(Version { major: a, minor: b, patch: c })
                                } else {
                                    proof {
                                        assert(suffix(s@, p3 as int).len() != 0);
                                    }
                                    None
                                }
                            },
                        }
                    },
                }
            },
        }
    }

    /// Whether `self` is strictly newer than `other`.
    pub fn newer_than(&self, other: &Version) -> (r: bool)
        ensures
            r == version_lt(*other, *self),
    {
        if self.major != other.major {
            self.major > other.major
        } else if self.minor != other.minor {
            self.minor > other.minor
        } else {
            self.patch > other.patch
        }
    }

    /// The `major.minor.patch` string of this version.
    pub fn to_text(&self) -> (r: String)
        ensures
            r@ == version_chars(*self),
    {
        proof {
            reveal_strlit(".");
        }
        let mut out = u64_to_dec(self.major);
        out.append(".");
        out.append(u64_to_dec(self.minor).as_str());
        out.append(".");
        out.append(u64_to_dec(self.patch).as_str());
        proof {
            assert(out@ =~= version_chars(*self));
        }
        out
    }
}

/// Rendering a version and reading it back gives the version again.
pub proof fn lemma_version_round_trip(v: Version)
    ensures
        parse_version_spec(version_chars(v)) == Some(v),
{
    let tail1 = seq!['.'] + (dec_digits(v.minor as nat) + (seq!['.'] + dec_digits(v.patch as nat)));
    assert(version_chars(v) =~= dec_digits(v.major as nat) + tail1);
    assert(!is_digit('.'));
    lemma_parse_num_of_digits(v.major as nat, tail1);
    assert(tail1[0] == '.');
    let tail2 = dec_digits(v.minor as nat) + (seq!['.'] + dec_digits(v.patch as nat));
    assert(tail1.drop_first() =~= tail2);
    lemma_parse_num_of_digits(v.minor as nat, seq!['.'] + dec_digits(v.patch as nat));
    assert((seq!['.'] + dec_digits(v.patch as nat))[0] == '.');
    assert((seq!['.'] + dec_digits(v.patch as nat)).drop_first() =~= dec_digits(v.patch as nat));
    lemma_parse_num_of_digits(v.patch as nat, Seq::empty());
    assert(dec_digits(v.patch as nat) + Seq::<char>::empty() =~= dec_digits(v.patch as nat));
}

} // verus!
