use vstd::prelude::*;

verus! {

/// A rule ending in two asterisks is a prefix rule.
pub open spec fn is_wildcard(rule: Seq<char>) -> bool {
    rule.len() >= 2 && rule[rule.len() - 1] == '*' && rule[rule.len() - 2] == '*'
}

/// Whether `candidate` is caught by `rule`: a prefix rule catches every
/// string that starts with the rule less its two asterisks; any other rule
/// catches that exact string.
pub open spec fn rule_matches(rule: Seq<char>, candidate: Seq<char>) -> bool {
    if is_wildcard(rule) {
        let p = rule.subrange(0, rule.len() - 2);
        p.len() <= candidate.len() && candidate.subrange(0, p.len() as int) == p
    } else {
        candidate == rule
    }
}

/// Whether some rule of `rules` catches `candidate`.
pub open spec fn any_rule_matches(rules: Seq<Seq<char>>, candidate: Seq<char>) -> bool {
    exists|i: int| 0 <= i < rules.len() && rule_matches(#[trigger] rules[i], candidate)
}

/// The rules that exclude sections of the documentation site from the index.
pub open spec fn mdn_rules() -> Seq<Seq<char>> {
    seq![
        "https://developer.mozilla.org/en-US/plus/**"@,
        "https://developer.mozilla.org/en-US/curriculum/**"@,
        "https://developer.mozilla.org/en-US/play/**"@,
        "https://developer.mozilla.org/en-US/observatory/**"@,
        "https://developer.mozilla.org/en-US/"@,
        "https://developer.mozilla.org/en-US/404"@,
        "https://developer.mozilla.org/en-US/about"@,
        "https://developer.mozilla.org/en-US/advertising"@,
        "https://developer.mozilla.org/en-US/blog/"@,
    ]
}

/// Whether the first `n` characters of `p` start `s`.
pub(crate) fn prefix_matches(s: &str, s_len: usize, p: &str, n: usize) -> (r: bool)
    requires
        s_len == s@.len(),
        n <= p@.len(),
    ensures
        r == (n <= s@.len() && s@.subrange(0, n as int) == p@.subrange(0, n as int)),
{
    if n > s_len {
        return false;
    }
    let mut i: usize = 0;
    while i < n
        invariant
            i <= n <= s@.len(),
            n <= p@.len(),
            s@.subrange(0, i as int) == p@.subrange(0, i as int),
        decreases n - i,
    {
        if s.get_char(i) != p.get_char(i) {
            assert(s@.subrange(0, n as int)[i as int] != p@.subrange(0, n as int)[i as int]);
            return false;
        }
        assert(s@.subrange(0, i + 1) =~= s@.subrange(0, i as int).push(s@[i as int]));
        assert(p@.subrange(0, i + 1) =~= p@.subrange(0, i as int).push(p@[i as int]));
        i = i + 1;
    }
    true
}

/// Whether `a` and `b` hold the same characters.
pub(crate) fn str_equal(a: &str, b: &str) -> (r: bool)
    ensures
        r == (a@ == b@),
{
    let al = a.unicode_len();
    let bl = b.unicode_len();
    if al != bl {
        return false;
    }
    let r = prefix_matches(a, al, b, bl);
    assert(a@.subrange(0, al as int) =~= a@);
    assert(b@.subrange(0, bl as int) =~= b@);
    r
}

/// Whether `candidate`, of `c_len` characters, is caught by `rule`.
fn rule_matches_exec(rule: &str, candidate: &str, c_len: usize) -> (r: bool)
    requires
        c_len == candidate@.len(),
    ensures
        r == rule_matches(rule@, candidate@),
{
    let rl = rule.unicode_len();
    if rl >= 2 && rule.get_char(rl - 1) == '*' && rule.get_char(rl - 2) == '*' {
        prefix_matches(candidate, c_len, rule, rl - 2)
    } else {
        let r = c_len == rl && prefix_matches(candidate, c_len, rule, rl);
        proof {
            if c_len == rl {
                assert(candidate@.subrange(0, rl as int) =~= candidate@);
                assert(rule@.subrange(0, rl as int) =~= rule@);
            }
        }
        r
    }
}

/// An ordered set of rules that exclude locations from the index.
pub struct IgnoreFilter {
    pub rules: Vec<String>,
}

impl IgnoreFilter {
    pub open spec fn spec_rules(&self) -> Seq<Seq<char>> {
        self.rules@.map_values(|r: String| r@)
    }

    /// Whether some rule catches `candidate`; rules are tried in order.
    pub fn matches(&self, candidate: &str) -> (r: bool)
        ensures
            r == any_rule_matches(self.spec_rules(), candidate@),
    {
        let c_len = candidate.unicode_len();
        let mut i: usize = 0;
        while i < self.rules.len()
            invariant
                i <= self.rules@.len(),
                c_len == candidate@.len(),
                forall|j: int| 0 <= j < i ==> !rule_matches(#[trigger] self.spec_rules()[j], candidate@),
            decreases self.rules@.len() - i,
        {
            if rule_matches_exec(self.rules[i].as_str(), candidate, c_len) {
                assert(self.spec_rules()[i as int] == self.rules@[i as int]@);
                return true;
            }
            i = i + 1;
        }
        proof {
            assert forall|j: int| 0 <= j < self.spec_rules().len() implies !rule_matches(
                #[trigger] self.spec_rules()[j],
                candidate@,
            ) by {}
        }
        false
    }

    /// The filter holding the rules of the documentation site.
    pub fn mdn() -> (r: IgnoreFilter)
        ensures
            r.spec_rules() == mdn_rules(),
    {
        let rules = vec![
            "https://developer.mozilla.org/en-US/plus/**".to_owned(),
            "https://developer.mozilla.org/en-US/curriculum/**".to_owned(),
            "https://developer.mozilla.org/en-US/play/**".to_owned(),
            "https://developer.mozilla.org/en-US/observatory/**".to_owned(),
            "https://developer.mozilla.org/en-US/".to_owned(),
            "https://developer.mozilla.org/en-US/404".to_owned(),
            "https://developer.mozilla.org/en-US/about".to_owned(),
            "https://developer.mozilla.org/en-US/advertising".to_owned(),
            "https://developer.mozilla.org/en-US/blog/".to_owned(),
        ];
        let r = IgnoreFilter { rules };
        assert(r.spec_rules() =~= mdn_rules());
        r
    }
}

/// Whether `path` is excluded from the index of the documentation site.
pub fn path_is_ignored(path: &str) -> (r: bool)
    ensures
        r == any_rule_matches(mdn_rules(), path@),
{
    IgnoreFilter::mdn().matches(path)
}

} // verus!
