//! Parsing of issue references of the form `org/repo#number`.
//!
//! The checker that asks whether an issue or pull request is closed
//! receives its target in this form; splitting it apart is the only
//! logic of that checker that does not go over the network.

use vstd::prelude::*;
use vstd::slice::{slice_subrange, slice_to_vec};
use vstd::assert_seqs_equal;
use crate::decimal::{parse_u64_numeral, u64_numeral_value, valid_u64_numeral};

verus! {

/// The position of the first occurrence of `sep`, scanning from the
/// front.
pub open spec fn find_first(s: Seq<u8>, sep: u8) -> Option<int>
    decreases s.len(),
{
    if s.len() == 0 {
        None
    } else if s.first() == sep {
        Some(0)
    } else {
        match find_first(s.drop_first(), sep) {
            None => None,
            Some(i) => Some(i + 1),
        }
    }
}

/// What `find_first` means: the returned index holds `sep` and nothing
/// before it does; `None` means `sep` does not occur at all.
proof fn lemma_find_first(s: Seq<u8>, sep: u8)
    ensures
        (match find_first(s, sep) {
            Some(i) => 0 <= i < s.len() && s[i] == sep && forall|j: int| 0 <= j < i ==> s[j] != sep,
            None => forall|j: int| 0 <= j < s.len() ==> s[j] != sep,
        }),
    decreases s.len(),
{
    if s.len() > 0 && s.first() != sep {
        lemma_find_first(s.drop_first(), sep);
        let t = s.drop_first();
        assert(forall|j: int| 1 <= j < s.len() ==> s[j] == #[trigger] t[j - 1]);
        match find_first(t, sep) {
            None => {
                assert forall|j: int| 0 <= j < s.len() implies s[j] != sep by {
                    if j >= 1 {
                        assert(s[j] == t[j - 1]);
                    }
                }
            },
            Some(i) => {
                assert(s[i + 1] == t[i]);
                assert forall|j: int| 0 <= j < i + 1 implies s[j] != sep by {
                    if j >= 1 {
                        assert(s[j] == t[j - 1]);
                    }
                }
            },
        }
    }
}

/// A parsed issue reference: organization, repository and issue number.
pub struct OrgRepoIssue {
    pub org: Vec<u8>,
    pub repo: Vec<u8>,
    pub issue: u64,
}

/// What an issue reference parses to: the text before the first slash,
/// the text between that slash and the first following hash sign, and
/// the number after the hash sign — `None` when either separator is
/// missing or the number is not a valid 64-bit numeral.
pub open spec fn spec_parse_org_repo_issue(s: Seq<u8>) -> Option<(Seq<u8>, Seq<u8>, u64)> {
    match find_first(s, 0x2f) {
        None => None,
        Some(i) => {
            let org = s.take(i);
            let rest = s.skip(i + 1);
            match find_first(rest, 0x23) {
                None => None,
                Some(j) => {
                    let repo = rest.take(j);
                    let num = rest.skip(j + 1);
                    if valid_u64_numeral(num) {
                        Some((org, repo, u64_numeral_value(num) as u64))
                    } else {
                        None
                    }
                },
            }
        },
    }
}

/// Find the first occurrence of `sep` in `s` at or after `from`.
fn scan_for(s: &[u8], from: usize, sep: u8) -> (r: Option<usize>)
    requires
        from <= s@.len(),
    ensures
        (match r {
            Some(i) => from <= i < s@.len() && s@[i as int] == sep && forall|j: int|
                from <= j < i ==> s@[j] != sep,
            None => forall|j: int| from <= j < s@.len() ==> s@[j] != sep,
        }),
{
    let mut i: usize = from;
    while i < s.len()
        invariant
            from <= i <= s@.len(),
            forall|j: int| from <= j < i ==> s@[j] != sep,
        decreases s@.len() - i,
    {
        if s[i] == sep {
            return Some(i);
        }
        i = i + 1;
    }
    None
}

impl OrgRepoIssue {
    /// Parse `org/repo#number`, splitting at the first slash and at the
    /// first hash sign after it.
    pub fn parse(input: &Vec<u8>) -> (r: Option<OrgRepoIssue>)
        ensures
            (match r {
                Some(o) => spec_parse_org_repo_issue(input@) == Some((o.org@, o.repo@, o.issue)),
                None => spec_parse_org_repo_issue(input@) is None,
            }),
    {
        proof {
            lemma_find_first(input@, 0x2f);
        }
        let slash = match scan_for(input.as_slice(), 0, 0x2f) {
            Some(i) => i,
            None => {
                proof {
                    assert(find_first(input@, 0x2f) is None) by {
                        if find_first(input@, 0x2f) is Some {
                            let i = find_first(input@, 0x2f).unwrap();
                            assert(input@[i] == 0x2f);
                        }
                    }
                }
                return None;
            },
        };
        proof {
            assert(find_first(input@, 0x2f) == Some(slash as int)) by {
                match find_first(input@, 0x2f) {
                    None => {
                        assert(input@[slash as int] == 0x2f);
                    },
                    Some(i) => {
                        if i < slash {
                            assert(input@[i] == 0x2f);
                        }
                        if i > slash {
                            assert(input@[slash as int] != 0x2f);
                        }
                    },
                }
            }
        }
        assert(slash < input.len());
        let ghost rest = input@.skip(slash + 1);
        let hash = match scan_for(input.as_slice(), slash + 1, 0x23) {
            Some(i) => i,
            None => {
                proof {
                    lemma_find_first(rest, 0x23);
                    assert(forall|j: int| 0 <= j < rest.len() ==> rest[j] == input@[j + slash + 1]);
                    assert(find_first(rest, 0x23) is None) by {
                        if find_first(rest, 0x23) is Some {
                            let i = find_first(rest, 0x23).unwrap();
                            assert(rest[i] == 0x23);
                        }
                    }
                }
                return None;
            },
        };
        proof {
            lemma_find_first(rest, 0x23);
            assert(forall|j: int| 0 <= j < rest.len() ==> rest[j] == input@[j + slash + 1]);
            let jg = hash - slash - 1;
            assert(rest[jg as int] == input@[hash as int]);
            assert(find_first(rest, 0x23) == Some(hash - slash - 1)) by {
                match find_first(rest, 0x23) {
                    None => {
                        assert(rest[jg as int] == 0x23);
                    },
                    Some(i) => {
                        if i < jg {
                            assert(input@[i + slash + 1] == 0x23);
                        }
                        if i > jg {
                            assert(rest[jg as int] != 0x23);
                        }
                    },
                }
            }
        }
        assert(hash < input.len());
        let num_slice = slice_subrange(input.as_slice(), hash + 1, input.len());
        proof {
            assert(num_slice@ == rest.skip(hash - slash - 1 + 1)) by {
                assert_seqs_equal!(
                    input@.subrange(hash + 1, input@.len() as int),
                    input@.skip(slash + 1).skip(hash - slash - 1 + 1)
                );
            }
        }
        let issue = match parse_u64_numeral(num_slice) {
            Some(v) => v,
            None => {
                return None;
            },
        };
        let org = slice_to_vec(slice_subrange(input.as_slice(), 0, slash));
        let repo = slice_to_vec(slice_subrange(input.as_slice(), slash + 1, hash));
        proof {
            assert(org@ == input@.take(slash as int));
            assert(repo@ == rest.take(hash - slash - 1)) by {
                assert_seqs_equal!(
                    input@.subrange(slash + 1, hash as int),
                    input@.skip(slash + 1).take(hash - slash - 1)
                );
            }
        }
        Some(OrgRepoIssue { org, repo, issue })
    }
}

/// Anchor for this checker's usage examples; the scenarios live in the
/// crate's integration tests.
pub fn tests() {
}

} // verus!
