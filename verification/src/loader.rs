//! Policy and sanctions loading: validation of a parsed policy document,
//! and the sanctions list grammar (one address per line, `#` comments,
//! blank lines ignored, normalized to lowercase). Reading files is the
//! service edge's job; the logic here works on the file contents.

use vstd::prelude::*;
use crate::policy::Policy;
use crate::text;

verus! {

use vstd::string::StringExecFns;

/// Errors that can occur during policy loading.
#[derive(Debug)]
pub enum PolicyError {
    /// Reading a policy or sanctions source failed
    Io(String),
    /// The policy document could not be parsed
    Yaml(String),
    /// The document parsed but is not a valid policy
    Validation(String),
}

impl PolicyError {
    /// A short human-readable description.
    pub fn message(&self) -> (r: &str)
        ensures
            r@ == match self {
                PolicyError::Io(m) => m@,
                PolicyError::Yaml(m) => m@,
                PolicyError::Validation(m) => m@,
            },
    {
        match self {
            PolicyError::Io(m) => m.as_str(),
            PolicyError::Yaml(m) => m.as_str(),
            PolicyError::Validation(m) => m.as_str(),
        }
    }
}

/// A policy is valid when its version is non-empty and its rule ids are
/// pairwise distinct.
pub open spec fn spec_policy_valid(p: Policy) -> bool {
    &&& p.version@.len() > 0
    &&& forall|i: int, j: int|
        0 <= i < j < p.rules@.len() ==> (#[trigger] p.rules@[i]).id@ != (
        #[trigger] p.rules@[j]).id@
}

/// Validate a policy: non-empty version, unique rule ids. Returns `Ok`
/// exactly on valid policies.
pub fn validate_policy(policy: &Policy) -> (r: Result<(), PolicyError>)
    ensures
        r is Ok <==> spec_policy_valid(*policy),
{
    if policy.version.as_str().unicode_len() == 0 {
        return Err(PolicyError::Validation(String::from_str("policy version cannot be empty")));
    }
    let n: usize = policy.rules.len();
    let mut i: usize = 0;
    while i < n
        invariant
            i <= n,
            n == policy.rules@.len(),
            forall|a: int, b: int|
                0 <= a < b < n && a < i ==> (#[trigger] policy.rules@[a]).id@ != (
                #[trigger] policy.rules@[b]).id@,
        decreases n - i,
    {
        let mut j: usize = i + 1;
        while j < n
            invariant
                i < j <= n,
                i < n,
                n == policy.rules@.len(),
                forall|b: int|
                    i < b < j ==> (#[trigger] policy.rules@[b]).id@ != policy.rules@[i as int].id@,
            decreases n - j,
        {
            if text::str_eq(policy.rules[i].id.as_str(), policy.rules[j].id.as_str()) {
                return Err(
                    PolicyError::Validation(String::from_str("duplicate rule id in policy")),
                );
            }
            j = j + 1;
        }
        i = i + 1;
    }
    Ok(())
}

/// The addresses a sanctions file denotes: each line trimmed of spaces
/// and tabs; blank lines and `#` comments skipped; the rest lowercased.
pub open spec fn spec_sanction_lines(lines: Seq<Seq<char>>) -> Seq<Seq<char>>
    decreases lines.len(),
{
    if lines.len() == 0 {
        Seq::empty()
    } else {
        let rest = spec_sanction_lines(lines.drop_last());
        let t = spec_trim(lines.last());
        if t.len() == 0 || t[0] == '#' {
            rest
        } else {
            rest.push(text::lower_seq(t))
        }
    }
}

/// Whitespace that line trimming removes.
pub open spec fn is_trim_char(c: char) -> bool {
    c == ' ' || c == '\t' || c == '\r'
}

/// A sequence with leading and trailing blanks removed.
pub open spec fn spec_trim(s: Seq<char>) -> Seq<char>
    decreases s.len(),
{
    if s.len() == 0 {
        s
    } else if is_trim_char(s[0]) {
        spec_trim(s.skip(1))
    } else if is_trim_char(s.last()) {
        spec_trim(s.drop_last())
    } else {
        s
    }
}

/// Trim leading and trailing blanks from a character vector.
fn trim_chars(s: &Vec<char>) -> (r: Vec<char>)
    ensures
        r@ == spec_trim(s@),
{
    let mut lo: usize = 0;
    let mut hi: usize = s.len();
    proof {
        assert(s@.subrange(0, s@.len() as int) =~= s@);
    }
    loop
        invariant
            0 <= lo <= hi <= s@.len(),
            spec_trim(s@) == spec_trim(s@.subrange(lo as int, hi as int)),
        ensures
            0 <= lo <= hi <= s@.len(),
            spec_trim(s@) == s@.subrange(lo as int, hi as int),
        decreases hi - lo,
    {
        if lo == hi {
            proof {
                assert(s@.subrange(lo as int, hi as int).len() == 0);
            }
            break ;
        }
        let c0 = s[lo];
        if c0 == ' ' || c0 == '\t' || c0 == '\r' {
            proof {
                assert(s@.subrange(lo as int, hi as int).skip(1) =~= s@.subrange(
                    lo + 1,
                    hi as int,
                ));
            }
            lo = lo + 1;
            continue ;
        }
        let c1 = s[hi - 1];
        if c1 == ' ' || c1 == '\t' || c1 == '\r' {
            proof {
                assert(s@.subrange(lo as int, hi as int).drop_last() =~= s@.subrange(
                    lo as int,
                    hi - 1,
                ));
                assert(s@.subrange(lo as int, hi as int).last() == s@[hi - 1]);
            }
            hi = hi - 1;
            continue ;
        }
        proof {
            assert(s@.subrange(lo as int, hi as int)[0] == s@[lo as int]);
            assert(s@.subrange(lo as int, hi as int).last() == s@[hi - 1]);
        }
        break ;
    }
    let mut out: Vec<char> = Vec::new();
    let mut k: usize = lo;
    while k < hi
        invariant
            lo <= k <= hi <= s@.len(),
            out@ == s@.subrange(lo as int, k as int),
        decreases hi - k,
    {
        out.push(s[k]);
        k = k + 1;
        proof {
            assert(out@ =~= s@.subrange(lo as int, k as int));
        }
    }
    proof {
        assert(out@ =~= s@.subrange(lo as int, hi as int));
    }
    out
}

/// Parse a sanctions list from file contents: one address per line, `#`
/// comments and blank lines ignored, normalized to lowercase.
pub fn parse_sanctions(content: &str) -> (r: Vec<String>)
    ensures
        r@.map_values(|s: String| s@) == spec_sanction_lines(text::spec_split_lines(content@)),
        r@.map_values(|s: String| s@) == spec_sanction_lines(text::spec_lines(content@)),
{
    let chars = text::str_chars(content);
    let lines = text::split_lines(&chars);
    let ghost lv = lines@.map_values(|v: Vec<char>| v@);
    proof {
        text::lemma_split_lines_nonempty(content@);
        let p = text::spec_split_lines(content@);
        if p.len() > 0 && p.last().len() == 0 {
            assert(spec_sanction_lines(p) == spec_sanction_lines(p.drop_last()));
        }
    }
    let mut out: Vec<String> = Vec::new();
    let mut i: usize = 0;
    while i < lines.len()
        invariant
            i <= lines@.len(),
            lv == lines@.map_values(|v: Vec<char>| v@),
            lv == text::spec_lines(content@),
            spec_sanction_lines(lv) == spec_sanction_lines(text::spec_split_lines(content@)),
            out@.map_values(|s: String| s@) == spec_sanction_lines(lv.subrange(0, i as int)),
        decreases lines@.len() - i,
    {
        proof {
            assert(lv.subrange(0, (i + 1) as int).drop_last() =~= lv.subrange(0, i as int));
            assert(lv.subrange(0, (i + 1) as int).last() == lv[i as int]);
        }
        let t = trim_chars(&lines[i]);
        if t.len() == 0 {
            proof {
                assert(out@.map_values(|s: String| s@) =~= spec_sanction_lines(
                    lv.subrange(0, (i + 1) as int),
                ));
            }
        } else if t[0] == '#' {
            proof {
                assert(out@.map_values(|s: String| s@) =~= spec_sanction_lines(
                    lv.subrange(0, (i + 1) as int),
                ));
            }
        } else {
            let lowered = text::chars_to_string(&t);
            let addr = text::ascii_lower(lowered.as_str());
            out.push(addr);
            proof {
                assert(out@.map_values(|s: String| s@) =~= spec_sanction_lines(
                    lv.subrange(0, (i + 1) as int),
                ));
            }
        }
        i = i + 1;
    }
    proof {
        assert(lv.subrange(0, lv.len() as int) =~= lv);
    }
    out
}

/// Policy loader: holds the two source paths. The service edge reads the
/// files and hands their contents to `validate_policy` and
/// `parse_sanctions`.
#[derive(Debug, Clone)]
pub struct PolicyLoader {
    policy_path: String,
    sanctions_path: String,
}

impl PolicyLoader {
    /// Create a new policy loader.
    pub fn new(policy_path: &str, sanctions_path: &str) -> (r: PolicyLoader)
        ensures
            r.spec_policy_path() == policy_path@,
            r.spec_sanctions_path() == sanctions_path@,
    {
        PolicyLoader {
            policy_path: String::from_str(policy_path),
            sanctions_path: String::from_str(sanctions_path),
        }
    }

    /// The policy file path, as characters.
    pub closed spec fn spec_policy_path(self) -> Seq<char> {
        self.policy_path@
    }

    /// The sanctions file path, as characters.
    pub closed spec fn spec_sanctions_path(self) -> Seq<char> {
        self.sanctions_path@
    }

    /// Get the policy file path.
    pub fn policy_path(&self) -> (r: &str)
        ensures
            r@ == self.spec_policy_path(),
    {
        self.policy_path.as_str()
    }

    /// Get the sanctions file path.
    pub fn sanctions_path(&self) -> (r: &str)
        ensures
            r@ == self.spec_sanctions_path(),
    {
        self.sanctions_path.as_str()
    }
}

} // verus!
