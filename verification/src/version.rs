//! Semantic versions and version requirements.
//!
//! A version is a `major.minor.patch` triple.  "Latest" is never stored:
//! it is derived by max-ordering the published versions of a module.

use vstd::prelude::*;

verus! {

/// A semantic version triple.
#[derive(Clone, Copy, Debug, PartialEq, Eq, Structural)]
pub struct Version {
    pub major: u64,
    pub minor: u64,
    pub patch: u64,
}

/// A requirement against which published versions are resolved.
#[derive(Clone, Copy, Debug, PartialEq, Eq, Structural)]
pub enum VersionReq {
    /// Exactly this version.
    Exact(Version),
    /// Same major component, `minor.patch` at least the requested pair.
    Compatible(Version),
    /// Any version; resolution picks the highest.
    Latest,
}

/// Strict lexicographic order on version triples.
pub open spec fn version_lt(a: Version, b: Version) -> bool {
    ||| a.major < b.major
    ||| (a.major == b.major && a.minor < b.minor)
    ||| (a.major == b.major && a.minor == b.minor && a.patch < b.patch)
}

/// Whether version `v` satisfies requirement `req`.
pub open spec fn satisfies(v: Version, req: VersionReq) -> bool {
    match req {
        VersionReq::Exact(w) => v == w,
        VersionReq::Compatible(w) => {
            &&& v.major == w.major
            &&& (v.minor > w.minor || (v.minor == w.minor && v.patch >= w.patch))
        },
        VersionReq::Latest => true,
    }
}

impl Version {
    /// Compare two versions; `true` when `self` is strictly older than `other`.
    pub fn lt(&self, other: &Version) -> (r: bool)
        ensures
            r == version_lt(*self, *other),
    {
        if self.major != other.major {
            self.major < other.major
        } else if self.minor != other.minor {
            self.minor < other.minor
        } else {
            self.patch < other.patch
        }
    }

    /// Decide whether `self` satisfies `req`.
    pub fn matches_req(&self, req: &VersionReq) -> (r: bool)
        ensures
            r == satisfies(*self, *req),
    {
        match req {
            VersionReq::Exact(w) => {
                self.major == w.major && self.minor == w.minor && self.patch == w.patch
            },
            VersionReq::Compatible(w) => {
                self.major == w.major && (self.minor > w.minor || (self.minor == w.minor
                    && self.patch >= w.patch))
            },
            VersionReq::Latest => true,
        }
    }
}

/// The order is total: two distinct versions are strictly ordered one way.
pub proof fn lemma_version_order_total(a: Version, b: Version)
    ensures
        version_lt(a, b) || version_lt(b, a) || a == b,
        !(version_lt(a, b) && version_lt(b, a)),
{
}

/// Whether `c` is a decimal digit.
pub open spec fn is_digit(c: char) -> bool {
    '0' <= c && c <= '9'
}

/// The numeric value of a digit character.
pub open spec fn digit_val(c: char) -> int {
    c as int - '0' as int
}

/// Whether every character of `s` is a decimal digit.
pub open spec fn all_digits(s: Seq<char>) -> bool {
    forall|k: int| 0 <= k < s.len() ==> is_digit(s[k])
}

/// The number denoted by a sequence of digits, most significant first.
pub open spec fn digits_val(s: Seq<char>) -> int
    decreases s.len(),
{
    if s.len() == 0 {
        0
    } else {
        digits_val(s.drop_last()) * 10 + digit_val(s.last())
    }
}

/// A non-empty run of digits denoting a number that fits in `u64`.
pub open spec fn valid_number(s: Seq<char>) -> bool {
    &&& s.len() > 0
    &&& all_digits(s)
    &&& digits_val(s) <= u64::MAX
}

pub proof fn lemma_digits_val_nonneg(s: Seq<char>)
    requires
        all_digits(s),
    ensures
        digits_val(s) >= 0,
    decreases s.len(),
{
    if s.len() > 0 {
        assert(all_digits(s.drop_last()));
        lemma_digits_val_nonneg(s.drop_last());
    }
}

/// A digit sequence denotes at least as much as any of its prefixes.
pub proof fn lemma_digits_val_prefix(s: Seq<char>, m: int)
    requires
        all_digits(s),
        0 <= m <= s.len(),
    ensures
        digits_val(s.subrange(0, m)) <= digits_val(s),
    decreases s.len() - m,
{
    if m == s.len() {
        assert(s.subrange(0, m) =~= s);
    } else {
        let p = s.subrange(0, m);
        let q = s.subrange(0, m + 1);
        assert(q.drop_last() =~= p);
        assert(all_digits(p));
        lemma_digits_val_nonneg(p);
        assert(digits_val(q) == digits_val(p) * 10 + digit_val(s[m]));
        lemma_digits_val_prefix(s, m + 1);
    }
}

/// Parse the digits of `s` between `lo` (inclusive) and `hi` (exclusive).
pub fn parse_number(s: &str, lo: usize, hi: usize) -> (r: Option<u64>)
    requires
        lo <= hi <= s@.len(),
    ensures
        match r {
            Some(v) => valid_number(s@.subrange(lo as int, hi as int)) && v == digits_val(
                s@.subrange(lo as int, hi as int),
            ),
            None => !valid_number(s@.subrange(lo as int, hi as int)),
        },
{
    let ghost seg = s@.subrange(lo as int, hi as int);
    if lo == hi {
        return None;
    }
    let mut v: u64 = 0;
    let mut k: usize = lo;
    while k < hi
        invariant
            lo <= k <= hi <= s@.len(),
            seg == s@.subrange(lo as int, hi as int),
            all_digits(s@.subrange(lo as int, k as int)),
            v == digits_val(s@.subrange(lo as int, k as int)),
        decreases hi - k,
    {
        let c = s.get_char(k);
        let u = c as u32;
        if u < 48 || u > 57 {
            proof {
                assert(seg[k - lo] == s@[k as int]);
                assert(!is_digit(seg[k - lo]));
            }
            return None;
        }
        let d = (u - 48) as u64;
        proof {
            assert(is_digit(s@[k as int]));
            assert(d == digit_val(s@[k as int]));
        }
        let step = match v.checked_mul(10) {
            Some(t) => t.checked_add(d),
            None => None,
        };
        match step {
            Some(w) => {
                proof {
                    let p = s@.subrange(lo as int, k as int);
                    let q = s@.subrange(lo as int, k + 1 as int);
                    assert(q.drop_last() =~= p);
                    assert(q.last() == s@[k as int]);
                }
                v = w;
            },
            None => {
                proof {
                    if valid_number(seg) {
                        let p = s@.subrange(lo as int, k as int);
                        let q = s@.subrange(lo as int, k + 1 as int);
                        assert(q.drop_last() =~= p);
                        assert(q.last() == s@[k as int]);
                        assert(q =~= seg.subrange(0, k + 1 - lo));
                        lemma_digits_val_prefix(seg, k + 1 - lo);
                        assert(digits_val(q) == v * 10 + digit_val(s@[k as int]));
                        assert(digits_val(seg) > u64::MAX);
                    }
                }
                return None;
            },
        }
        k = k + 1;
    }
    proof {
        assert(s@.subrange(lo as int, k as int) =~= seg);
    }
    Some(v)
}

/// `s` splits into `major.minor.patch` at the dot positions `i` and `j`.
pub open spec fn version_split_at(s: Seq<char>, i: int, j: int) -> bool {
    &&& 0 <= i < j < s.len()
    &&& s[i] == '.'
    &&& s[j] == '.'
    &&& valid_number(s.subrange(0, i))
    &&& valid_number(s.subrange(i + 1, j))
    &&& valid_number(s.subrange(j + 1, s.len() as int))
}

/// Whether `s` is a well-formed `major.minor.patch` version string.
pub open spec fn valid_version_chars(s: Seq<char>) -> bool {
    exists|i: int, j: int| version_split_at(s, i, j)
}

/// The version denoted by `s` when split at dots `i` and `j`.
pub open spec fn version_at(s: Seq<char>, i: int, j: int) -> Version {
    Version {
        major: digits_val(s.subrange(0, i)) as u64,
        minor: digits_val(s.subrange(i + 1, j)) as u64,
        patch: digits_val(s.subrange(j + 1, s.len() as int)) as u64,
    }
}

/// The version denoted by a well-formed version string.
pub open spec fn version_of_chars(s: Seq<char>) -> Version {
    let (i, j) = choose|i: int, j: int| version_split_at(s, i, j);
    version_at(s, i, j)
}

/// A version string splits at exactly one pair of dot positions.
pub proof fn lemma_version_split_unique(s: Seq<char>, i: int, j: int, i2: int, j2: int)
    requires
        version_split_at(s, i, j),
        version_split_at(s, i2, j2),
    ensures
        i == i2,
        j == j2,
{
    if i < i2 {
        assert(s.subrange(0, i2)[i] == s[i]);
        assert(is_digit('.')) by {
            assert(all_digits(s.subrange(0, i2)));
        }
    }
    if i2 < i {
        assert(s.subrange(0, i)[i2] == s[i2]);
        assert(is_digit('.')) by {
            assert(all_digits(s.subrange(0, i)));
        }
    }
    if j < j2 {
        assert(s.subrange(i2 + 1, j2)[j - i2 - 1] == s[j]);
        assert(is_digit('.')) by {
            assert(all_digits(s.subrange(i2 + 1, j2)));
        }
    }
    if j2 < j {
        assert(s.subrange(i + 1, j)[j2 - i - 1] == s[j2]);
        assert(is_digit('.')) by {
            assert(all_digits(s.subrange(i + 1, j)));
        }
    }
}

/// Find the first `'.'` at or after `from`.
fn find_dot(s: &str, from: usize, n: usize) -> (r: Option<usize>)
    requires
        from <= n == s@.len(),
    ensures
        match r {
            Some(i) => from <= i < n && s@[i as int] == '.' && (forall|k: int|
                from <= k < i ==> s@[k] != '.'),
            None => forall|k: int| from <= k < n ==> s@[k] != '.',
        },
{
    let mut k: usize = from;
    while k < n
        invariant
            from <= k <= n == s@.len(),
            forall|t: int| from <= t < k ==> s@[t] != '.',
        decreases n - k,
    {
        let c = s.get_char(k);
        if c == '.' {
            return Some(k);
        }
        k = k + 1;
    }
    None
}

/// Parse a `major.minor.patch` version string; `None` when it is malformed
/// or a component does not fit in `u64`.
pub fn parse_version(s: &str) -> (r: Option<Version>)
    ensures
        match r {
            Some(v) => valid_version_chars(s@) && v == version_of_chars(s@),
            None => !valid_version_chars(s@),
        },
{
    let n = s.unicode_len();
    let i1 = match find_dot(s, 0, n) {
        Some(i) => i,
        None => {
            proof {
                if valid_version_chars(s@) {
                    let (i, j) = choose|i: int, j: int| version_split_at(s@, i, j);
                    assert(s@[i] == '.');
                    assert(false);
                }
            }
            return None;
        },
    };
    let i2 = match find_dot(s, i1 + 1, n) {
        Some(j) => j,
        None => {
            proof {
                if valid_version_chars(s@) {
                    let (i, j) = choose|i: int, j: int| version_split_at(s@, i, j);
                    lemma_first_dot_is_split(s@, i, j, i1 as int);
                    assert(i1 + 1 <= j < n && s@[j] == '.');
                    assert(false);
                }
            }
            return None;
        },
    };
    let major = parse_number(s, 0, i1);
    let minor = parse_number(s, i1 + 1, i2);
    let patch = parse_number(s, i2 + 1, n);
    match (major, minor, patch) {
        (Some(a), Some(b), Some(c)) => {
            proof {
                assert(version_split_at(s@, i1 as int, i2 as int));
                let (i, j) = choose|i: int, j: int| version_split_at(s@, i, j);
                lemma_version_split_unique(s@, i, j, i1 as int, i2 as int);
            }
            Some(Version { major: a, minor: b, patch: c })
        },
        _ => {
            proof {
                if valid_version_chars(s@) {
                    let (i, j) = choose|i: int, j: int| version_split_at(s@, i, j);
                    lemma_first_dot_is_split(s@, i, j, i1 as int);
                    if j > i2 {
                        assert(s@.subrange(i + 1, j)[i2 - i - 1] == s@[i2 as int]);
                        assert(is_digit('.')) by {
                            assert(all_digits(s@.subrange(i + 1, j)));
                        }
                    }
                    assert(j == i2);
                    assert(false);
                }
            }
            None
        },
    }
}

/// In any version split, the first dot of the string is the first split point.
proof fn lemma_first_dot_is_split(s: Seq<char>, i: int, j: int, i1: int)
    requires
        version_split_at(s, i, j),
        0 <= i1 < s.len(),
        s[i1] == '.',
        forall|k: int| 0 <= k < i1 ==> s[k] != '.',
    ensures
        i == i1,
{
    if i > i1 {
        assert(s.subrange(0, i)[i1] == s[i1]);
        assert(is_digit('.')) by {
            assert(all_digits(s.subrange(0, i)));
        }
    }
}

} // verus!
