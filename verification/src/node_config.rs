//! Node configuration: the ACME account and up to five ACME domains.
//!
//! The values live in a key=value property-string format: a domain entry
//! is comma-separated `key=value` pairs, where a bare value stands for the
//! default key, the domain itself.  Reading and writing the configuration
//! file is the process's affair; parsing and validation happen here.

use vstd::prelude::*;
use vstd::string::StrSliceExecFns;
use crate::scsi::{lowercase, lower_of};
use crate::pull::chars_eq;

verus! {

/// Configuration failures.
#[derive(Clone, Copy, Debug, PartialEq, Eq, Structural)]
pub enum ConfigError {
    /// A property string does not parse.
    Parse,
    /// Two ACME domain entries name the same domain.
    DuplicateDomain,
}

/// The first position of a character in a string, or the length.
pub open spec fn spec_find(s: Seq<char>, c: char) -> int
    decreases s.len(),
{
    if s.len() == 0 {
        0
    } else if s[0] == c {
        0
    } else {
        1 + spec_find(s.skip(1), c)
    }
}

proof fn lemma_find_bounds(s: Seq<char>, c: char)
    ensures
        0 <= spec_find(s, c) <= s.len(),
        spec_find(s, c) < s.len() ==> s[spec_find(s, c)] == c,
        forall|j: int| 0 <= j < spec_find(s, c) ==> s[j] != c,
    decreases s.len(),
{
    if s.len() > 0 && s[0] != c {
        lemma_find_bounds(s.skip(1), c);
        assert forall|j: int| 0 <= j < spec_find(s, c) implies s[j] != c by {
            if j > 0 {
                assert(s.skip(1)[j - 1] == s[j]);
            }
        }
    }
}

proof fn lemma_find_at(s: Seq<char>, c: char, i: int)
    requires
        0 <= i <= s.len(),
        forall|j: int| 0 <= j < i ==> s[j] != c,
        i < s.len() ==> s[i] == c,
    ensures
        spec_find(s, c) == if i < s.len() {
            i
        } else {
            (s.len() as int)
        },
    decreases s.len(),
{
    if s.len() > 0 {
        if i == 0 {
        } else {
            assert(s[0] != c);
            assert forall|j: int| 0 <= j < i - 1 implies s.skip(1)[j] != c by {
                assert(s.skip(1)[j] == s[j + 1]);
            }
            if i - 1 < s.skip(1).len() {
                assert(s.skip(1)[i - 1] == s[i]);
            }
            lemma_find_at(s.skip(1), c, i - 1);
        }
    }
}

/// Find the first position of an ASCII character, or the length.
fn find_char(s: &str, c: char) -> (r: usize)
    ensures
        r == spec_find(s@, c),
        r <= s@.len(),
{
    let n = s.unicode_len();
    let mut i: usize = 0;
    while i < n
        invariant
            n == s@.len(),
            i <= n,
            forall|j: int| 0 <= j < i ==> s@[j] != c,
        decreases n - i,
    {
        if s.get_char(i) == c {
            proof {
                lemma_find_at(s@, c, i as int);
            }
            return i;
        }
        i = i + 1;
    }
    proof {
        lemma_find_at(s@, c, n as int);
    }
    n
}

/// The ACME configuration: the name of the account to use.
pub struct AcmeConfig {
    account: String,
}

impl AcmeConfig {
    pub closed spec fn spec_account(&self) -> Seq<char> {
        self.account@
    }

    /// Account to use to acquire ACME certificates.
    pub fn account(&self) -> (r: &str)
        ensures
            r@ == self.spec_account(),
    {
        self.account.as_str()
    }
}

/// What an ACME property string names as the account: a bare value, or
/// the value of the `account` key; anything else does not parse.
pub open spec fn spec_acme_account(s: Seq<char>) -> Option<Seq<char>> {
    let eq = spec_find(s, '=');
    if eq == s.len() {
        Some(s)
    } else if s.take(eq) == "account"@ {
        Some(s.skip(eq + 1))
    } else {
        None
    }
}

/// One ACME domain entry.
#[derive(Debug)]
pub struct AcmeDomain {
    /// The domain to get a certificate for.
    pub domain: String,
    /// An alias domain the challenge is delegated to.
    pub alias: Option<String>,
    /// The challenge plugin to use.
    pub plugin: Option<String>,
}

/// The abstract value of a parsed domain entry: domain, alias, plugin.
pub type DomainParts = (Seq<char>, Option<Seq<char>>, Option<Seq<char>>);

/// Apply one comma-separated segment to the parts collected so far: a
/// bare value or the `domain` key sets the domain, `alias` and `plugin`
/// set theirs; duplicates, unknown keys and empty values do not parse.
pub open spec fn spec_apply_segment(
    state: (Option<Seq<char>>, Option<Seq<char>>, Option<Seq<char>>),
    seg: Seq<char>,
) -> Option<(Option<Seq<char>>, Option<Seq<char>>, Option<Seq<char>>)> {
    let eq = spec_find(seg, '=');
    if eq == seg.len() {
        if seg.len() == 0 || state.0 is Some {
            None
        } else {
            Some((Some(seg), state.1, state.2))
        }
    } else {
        let key = seg.take(eq);
        let value = seg.skip(eq + 1);
        if key == "domain"@ {
            if state.0 is Some {
                None
            } else {
                Some((Some(value), state.1, state.2))
            }
        } else if key == "alias"@ {
            if state.1 is Some {
                None
            } else {
                Some((state.0, Some(value), state.2))
            }
        } else if key == "plugin"@ {
            if state.2 is Some {
                None
            } else {
                Some((state.0, state.1, Some(value)))
            }
        } else {
            None
        }
    }
}

/// Fold the whole property string, segment by segment.
pub open spec fn spec_fold_segments(
    state: (Option<Seq<char>>, Option<Seq<char>>, Option<Seq<char>>),
    s: Seq<char>,
) -> Option<(Option<Seq<char>>, Option<Seq<char>>, Option<Seq<char>>)>
    decreases s.len(),
{
    let comma = spec_find(s, ',');
    if !(0 <= comma < s.len()) {
        spec_apply_segment(state, s)
    } else {
        match spec_apply_segment(state, s.take(comma)) {
            None => None,
            Some(next) => spec_fold_segments(next, s.skip(comma + 1)),
        }
    }
}

/// What an ACME domain property string parses to, if anything: the
/// segments folded, with the domain required.
pub open spec fn spec_parse_acme_domain(s: Seq<char>) -> Option<DomainParts> {
    match spec_fold_segments((None, None, None), s) {
        None => None,
        Some((domain, alias, plugin)) => match domain {
            None => None,
            Some(d) => Some((d, alias, plugin)),
        },
    }
}

/// The view of one optional domain slot: one entry when set, none
/// otherwise.
pub open spec fn spec_opt_entry(o: &Option<String>) -> Seq<Seq<char>> {
    match o {
        Some(v) => seq![v@],
        None => Seq::<Seq<char>>::empty(),
    }
}

/// The parts an `AcmeDomain` value carries.
pub open spec fn spec_domain_parts(d: &AcmeDomain) -> DomainParts {
    (
        d.domain@,
        match d.alias {
            Some(ref a) => Some(a@),
            None => None,
        },
        match d.plugin {
            Some(ref p) => Some(p@),
            None => None,
        },
    )
}

fn apply_segment(
    state: (Option<String>, Option<String>, Option<String>),
    seg: &str,
) -> (r: Result<(Option<String>, Option<String>, Option<String>), ConfigError>)
    ensures
        r matches Ok(next) ==> spec_apply_segment(spec_state_view(&state), seg@) == Some(
            spec_state_view(&next),
        ),
        r is Err <==> spec_apply_segment(spec_state_view(&state), seg@) is None,
{
    proof {
        reveal_strlit("domain");
        reveal_strlit("alias");
        reveal_strlit("plugin");
    }
    let n = seg.unicode_len();
    let eq = find_char(seg, '=');
    let (domain, alias, plugin) = state;
    if eq == n {
        if n == 0 || domain.is_some() {
            Err(ConfigError::Parse)
        } else {
            assert(seg@.len() != 0);
            Ok((Some(seg.to_owned()), alias, plugin))
        }
    } else {
        let key = seg.substring_char(0, eq);
        let value = seg.substring_char(eq + 1, n).to_owned();
        assert(key@ =~= seg@.take(eq as int));
        assert(value@ =~= seg@.skip(eq + 1));
        if chars_eq(key, "domain") {
            if domain.is_some() {
                Err(ConfigError::Parse)
            } else {
                Ok((Some(value), alias, plugin))
            }
        } else if chars_eq(key, "alias") {
            if alias.is_some() {
                Err(ConfigError::Parse)
            } else {
                Ok((domain, Some(value), plugin))
            }
        } else if chars_eq(key, "plugin") {
            if plugin.is_some() {
                Err(ConfigError::Parse)
            } else {
                Ok((domain, alias, Some(value)))
            }
        } else {
            Err(ConfigError::Parse)
        }
    }
}

/// The abstract view of a partial parse state.
pub open spec fn spec_state_view(state: &(Option<String>, Option<String>, Option<String>)) -> (
    Option<Seq<char>>,
    Option<Seq<char>>,
    Option<Seq<char>>,
) {
    (
        match state.0 {
            Some(ref d) => Some(d@),
            None => None,
        },
        match state.1 {
            Some(ref a) => Some(a@),
            None => None,
        },
        match state.2 {
            Some(ref p) => Some(p@),
            None => None,
        },
    )
}

fn fold_segments(
    state: (Option<String>, Option<String>, Option<String>),
    s: &str,
) -> (r: Result<(Option<String>, Option<String>, Option<String>), ConfigError>)
    ensures
        r matches Ok(out) ==> spec_fold_segments(spec_state_view(&state), s@) == Some(
            spec_state_view(&out),
        ),
        r is Err <==> spec_fold_segments(spec_state_view(&state), s@) is None,
    decreases s@.len(),
{
    let n = s.unicode_len();
    let comma = find_char(s, ',');
    if comma == n {
        proof {
            assert(!(0 <= spec_find(s@, ',') < s@.len()));
        }
        apply_segment(state, s)
    } else {
        let head = s.substring_char(0, comma);
        let tail = s.substring_char(comma + 1, n);
        assert(head@ =~= s@.take(comma as int));
        assert(tail@ =~= s@.skip(comma + 1));
        match apply_segment(state, head) {
            Err(e) => Err(e),
            Ok(next) => fold_segments(next, tail),
        }
    }
}

/// Parse an ACME domain property string.
pub fn parse_acme_domain(s: &str) -> (r: Result<AcmeDomain, ConfigError>)
    ensures
        r matches Ok(d) ==> spec_parse_acme_domain(s@) == Some(spec_domain_parts(&d)),
        r is Err <==> spec_parse_acme_domain(s@) is None,
{
    match fold_segments((None, None, None), s) {
        Err(e) => Err(e),
        Ok((domain, alias, plugin)) => {
            match domain {
                None => Err(ConfigError::Parse),
                Some(d) => Ok(AcmeDomain { domain: d, alias, plugin }),
            }
        },
    }
}

/// Parse an ACME account property string.
pub fn parse_acme_config(s: &str) -> (r: Result<AcmeConfig, ConfigError>)
    ensures
        r matches Ok(c) ==> spec_acme_account(s@) == Some(c.spec_account()),
        r is Err <==> spec_acme_account(s@) is None,
{
    proof {
        reveal_strlit("account");
    }
    let n = s.unicode_len();
    let eq = find_char(s, '=');
    if eq == n {
        Ok(AcmeConfig { account: s.to_owned() })
    } else {
        let key = s.substring_char(0, eq);
        assert(key@ =~= s@.take(eq as int));
        if chars_eq(key, "account") {
            let value = s.substring_char(eq + 1, n).to_owned();
            assert(value@ =~= s@.skip(eq + 1));
            Ok(AcmeConfig { account: value })
        } else {
            Err(ConfigError::Parse)
        }
    }
}

/// Node specific configuration: the ACME account, and the domains to get
/// certificates for.
pub struct NodeConfig {
    acme: Option<String>,
    acmedomain0: Option<String>,
    acmedomain1: Option<String>,
    acmedomain2: Option<String>,
    acmedomain3: Option<String>,
    acmedomain4: Option<String>,
}

impl NodeConfig {
    pub closed spec fn spec_acme(&self) -> Option<Seq<char>> {
        match self.acme {
            Some(ref s) => Some(s@),
            None => None,
        }
    }

    /// The views of the domain entries that are set, in slot order.
    pub closed spec fn spec_domain_entries(&self) -> Seq<Seq<char>> {
        spec_opt_entry(&self.acmedomain0) + spec_opt_entry(&self.acmedomain1) + spec_opt_entry(
            &self.acmedomain2,
        ) + spec_opt_entry(&self.acmedomain3) + spec_opt_entry(&self.acmedomain4)
    }

    pub fn new(
        acme: Option<String>,
        acmedomain0: Option<String>,
        acmedomain1: Option<String>,
        acmedomain2: Option<String>,
        acmedomain3: Option<String>,
        acmedomain4: Option<String>,
    ) -> (r: NodeConfig)
        ensures
            r.spec_acme() == match acme {
                Some(s) => Some(s@),
                None => None::<Seq<char>>,
            },
    {
        NodeConfig { acme, acmedomain0, acmedomain1, acmedomain2, acmedomain3, acmedomain4 }
    }

    /// The parsed ACME configuration, when one is set.
    pub fn acme_config(&self) -> (r: Option<Result<AcmeConfig, ConfigError>>)
        ensures
            r is None <==> self.spec_acme() is None,
            self.spec_acme() matches Some(s) ==> (r matches Some(inner) && (inner matches Ok(cfg)
                ==> spec_acme_account(s) == Some(cfg.spec_account())) && (inner is Err
                <==> spec_acme_account(s) is None)),
    {
        match self.acme {
            None => None,
            Some(ref s) => Some(parse_acme_config(s.as_str())),
        }
    }

    /// Walk the configured ACME domains.
    pub fn acme_domains(&self) -> (r: AcmeDomainIter)
        ensures
            r.spec_remaining() == self.spec_domain_entries(),
    {
        AcmeDomainIter::new(self)
    }

    /// Validate the configuration: every domain entry parses and no two
    /// entries name the same domain, compared case-insensitively.
    pub fn validate(&self) -> (r: Result<(), ConfigError>)
        ensures
            r is Ok <==> ((forall|i: int|
                0 <= i < self.spec_domain_entries().len() ==> spec_parse_acme_domain(
                    #[trigger] self.spec_domain_entries()[i],
                ) is Some) && (forall|i: int, j: int|
                0 <= i < j < self.spec_domain_entries().len() ==> lower_of(
                    (spec_parse_acme_domain(self.spec_domain_entries()[i])->0).0,
                ) != lower_of((spec_parse_acme_domain(self.spec_domain_entries()[j])->0).0))),
    {
        let entries = self.domain_entry_strings();
        let mut seen: Vec<String> = Vec::new();
        let mut i: usize = 0;
        let ghost views = self.spec_domain_entries();
        while i < entries.len()
            invariant
                views == self.spec_domain_entries(),
                entries@.map_values(|s: String| s@) == views,
                i <= entries@.len(),
                forall|k: int|
                    0 <= k < i ==> spec_parse_acme_domain(#[trigger] views[k]) is Some,
                seen@.len() == i,
                forall|k: int|
                    0 <= k < i ==> seen@[k]@ == lower_of((spec_parse_acme_domain(views[k])->0).0),
                forall|k: int, m: int| 0 <= k < m < i ==> seen@[k]@ != seen@[m]@,
            decreases entries@.len() - i,
        {
            let parsed = match parse_acme_domain(entries[i].as_str()) {
                Ok(d) => d,
                Err(_) => {
                    proof {
                        assert(entries@.map_values(|s: String| s@)[i as int] == entries@[i as int]@);
                        assert(spec_parse_acme_domain(views[i as int]) is None);
                        assert(!(forall|k: int|
                            0 <= k < views.len() ==> spec_parse_acme_domain(
                                #[trigger] views[k],
                            ) is Some));
                    }
                    return Err(ConfigError::Parse);
                },
            };
            proof {
                assert(entries@.map_values(|s: String| s@)[i as int] == entries@[i as int]@);
                assert(spec_parse_acme_domain(views[i as int]) == Some(
                    spec_domain_parts(&parsed),
                ));
            }
            let lower = lowercase(parsed.domain.as_str());
            let mut j: usize = 0;
            while j < seen.len()
                invariant
                    views == self.spec_domain_entries(),
                    i < views.len(),
                    seen@.len() == i,
                    j <= seen@.len(),
                    lower@ == lower_of((spec_parse_acme_domain(views[i as int])->0).0),
                    forall|k: int|
                        0 <= k < i ==> spec_parse_acme_domain(#[trigger] views[k]) is Some,
                    spec_parse_acme_domain(views[i as int]) is Some,
                    forall|k: int|
                        0 <= k < i ==> seen@[k]@ == lower_of(
                            (spec_parse_acme_domain(views[k])->0).0,
                        ),
                    forall|m: int| 0 <= m < j ==> seen@[m]@ != lower@,
                decreases seen@.len() - j,
            {
                if chars_eq(seen[j].as_str(), lower.as_str()) {
                    proof {
                        assert(seen@[j as int]@ == lower_of(
                            (spec_parse_acme_domain(views[j as int])->0).0,
                        ));
                        assert(lower@ == lower_of((spec_parse_acme_domain(views[i as int])->0).0));
                        assert(!(forall|k: int, m: int|
                            0 <= k < m < views.len() ==> lower_of(
                                (spec_parse_acme_domain(#[trigger] views[k])->0).0,
                            ) != lower_of((spec_parse_acme_domain(#[trigger] views[m])->0).0)));
                    }
                    return Err(ConfigError::DuplicateDomain);
                }
                j = j + 1;
            }
            proof {
                assert(entries@.map_values(|s: String| s@)[i as int] == entries@[i as int]@);
            }
            seen.push(lower);
            i = i + 1;
        }
        proof {
            assert(views.len() == entries@.len());
            assert forall|k: int, m: int| 0 <= k < m < views.len() implies lower_of(
                (spec_parse_acme_domain(views[k])->0).0,
            ) != lower_of((spec_parse_acme_domain(views[m])->0).0) by {
                assert(seen@[k]@ != seen@[m]@);
            }
        }
        Ok(())
    }

    /// The set domain entry strings, in slot order.
    fn domain_entry_strings(&self) -> (r: Vec<String>)
        ensures
            r@.map_values(|s: String| s@) == self.spec_domain_entries(),
    {
        let mut out: Vec<String> = Vec::new();
        if let Some(ref s) = self.acmedomain0 {
            out.push(clone_string(s));
        }
        if let Some(ref s) = self.acmedomain1 {
            out.push(clone_string(s));
        }
        if let Some(ref s) = self.acmedomain2 {
            out.push(clone_string(s));
        }
        if let Some(ref s) = self.acmedomain3 {
            out.push(clone_string(s));
        }
        if let Some(ref s) = self.acmedomain4 {
            out.push(clone_string(s));
        }
        proof {
            assert(out@.map_values(|s: String| s@) =~= self.spec_domain_entries());
        }
        out
    }
}

fn clone_string(s: &String) -> (r: String)
    ensures
        r@ == s@,
{
    s.as_str().to_owned()
}

/// A match of `pat` inside `s` starting at position `i`.
pub open spec fn spec_match_at(s: Seq<char>, pat: Seq<char>, i: int) -> bool {
    0 <= i && i + pat.len() <= s.len() && s.subrange(i, i + pat.len()) == pat
}

/// The time zone a localtime symlink names: everything after the last
/// zone directory marker in the link target, or the whole target when no
/// marker occurs.
pub fn timezone_from_link(link: &str) -> (r: String)
    ensures
        (exists|i: int| spec_match_at(link@, "/zoneinfo/"@, i)) ==> (exists|i: int|
            {
                &&& spec_match_at(link@, "/zoneinfo/"@, i)
                &&& (forall|j: int| j > i ==> !spec_match_at(link@, "/zoneinfo/"@, j))
                &&& r@ == link@.skip(i + 10)
            }),
        !(exists|i: int| spec_match_at(link@, "/zoneinfo/"@, i)) ==> r@ == link@,
{
    proof {
        reveal_strlit("/zoneinfo/");
    }
    let n = link.unicode_len();
    let mut best: Option<usize> = None;
    if n >= 10 {
        let mut i: usize = 0;
        while i <= n - 10
            invariant
                n == link@.len(),
                n >= 10,
                "/zoneinfo/"@.len() == 10,
                i <= n - 10 + 1,
                best matches Some(b) ==> spec_match_at(link@, "/zoneinfo/"@, b as int) && (
                forall|j: int| (b as int) < j < i ==> !spec_match_at(link@, "/zoneinfo/"@, j)),
                best is None ==> forall|j: int| j < i ==> !spec_match_at(link@, "/zoneinfo/"@, j),
            decreases n - i,
        {
            let candidate = link.substring_char(i, i + 10);
            assert(candidate@ =~= link@.subrange(i as int, i + 10));
            if chars_eq(candidate, "/zoneinfo/") {
                proof {
                    assert(spec_match_at(link@, "/zoneinfo/"@, i as int));
                }
                best = Some(i);
            } else {
                proof {
                    assert(!spec_match_at(link@, "/zoneinfo/"@, i as int));
                }
            }
            i = i + 1;
        }
    }
    proof {
        assert forall|j: int| j > n - 10 implies !spec_match_at(link@, "/zoneinfo/"@, j) by {}
    }
    match best {
        Some(b) => {
            let tail = link.substring_char(b + 10, n);
            assert(tail@ =~= link@.skip(b + 10));
            proof {
                assert(spec_match_at(link@, "/zoneinfo/"@, b as int));
            }
            tail.to_owned()
        },
        None => {
            proof {
                if exists|i: int| spec_match_at(link@, "/zoneinfo/"@, i) {
                    let i = choose|i: int| spec_match_at(link@, "/zoneinfo/"@, i);
                    assert(false);
                }
            }
            link.to_owned()
        },
    }
}

/// Walks the configured ACME domains in slot order.
pub struct AcmeDomainIter {
    entries: Vec<String>,
    index: usize,
}

impl AcmeDomainIter {
    /// The entries not yet returned.
    pub closed spec fn spec_remaining(&self) -> Seq<Seq<char>> {
        if self.index <= self.entries@.len() {
            self.entries@.map_values(|s: String| s@).skip(self.index as int)
        } else {
            Seq::<Seq<char>>::empty()
        }
    }

    pub fn new(config: &NodeConfig) -> (r: AcmeDomainIter)
        ensures
            r.spec_remaining() == config.spec_domain_entries(),
    {
        let entries = config.domain_entry_strings();
        let r = AcmeDomainIter { entries, index: 0 };
        proof {
            assert(r.spec_remaining() =~= r.entries@.map_values(|s: String| s@));
        }
        r
    }

    /// The next configured domain entry, parsed.
    pub fn next(&mut self) -> (r: Option<Result<AcmeDomain, ConfigError>>)
        ensures
            old(self).spec_remaining().len() == 0 <==> r is None,
            old(self).spec_remaining().len() > 0 ==> {
                let s = old(self).spec_remaining()[0];
                &&& final(self).spec_remaining() == old(self).spec_remaining().skip(1)
                &&& (r matches Some(inner) && (inner matches Ok(d) ==> spec_parse_acme_domain(s)
                    == Some(spec_domain_parts(&d))) && (inner is Err <==> spec_parse_acme_domain(
                    s,
                ) is None))
            },
            r is None ==> final(self).spec_remaining() == old(self).spec_remaining(),
    {
        if self.index >= self.entries.len() {
            proof {
                if self.index <= self.entries@.len() {
                    assert(old(self).spec_remaining() =~= Seq::<Seq<char>>::empty());
                }
            }
            return None;
        }
        let s = clone_string(&self.entries[self.index]);
        self.index = self.index + 1;
        proof {
            assert(old(self).spec_remaining()[0] == s@);
            assert(final(self).spec_remaining() =~= old(self).spec_remaining().skip(1));
        }
        Some(parse_acme_domain(s.as_str()))
    }
}

} // verus!
