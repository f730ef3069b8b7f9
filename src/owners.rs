//! The rule table of a CODEOWNERS file: parsing and resolution.
use crate::owner::{kind_of, parse_owner, Owner, OwnerKind};
use crate::pattern::{glob_accepts, glob_valid, normalize, normalize_chars, owns, pattern_owns};
use crate::text::{chars_of, lines_of, split_lines, split_tokens, string_of, tokens, views};
use vstd::prelude::*;

verus! {

/// One rule of a CODEOWNERS file.
#[derive(Clone, Debug, PartialEq, Eq)]
pub struct Rule {
    /// 1-based number of the line the rule stands on.
    pub line: usize,
    /// The normalised glob (see `normalize`).
    pub pattern: String,
    /// The owners named on the line, in order; may be empty.
    pub owners: Vec<Owner>,
}

/// What a rule states.
pub struct RuleSpec {
    pub line: nat,
    pub pattern: Seq<char>,
    pub owners: Seq<(OwnerKind, Seq<char>)>,
}

pub open spec fn owner_views(v: Seq<Owner>) -> Seq<(OwnerKind, Seq<char>)> {
    v.map_values(|o: Owner| o@)
}

impl View for Rule {
    type V = RuleSpec;

    open spec fn view(&self) -> RuleSpec {
        RuleSpec { line: self.line as nat, pattern: self.pattern@, owners: owner_views(self.owners@) }
    }
}

pub open spec fn rule_views(v: Seq<Rule>) -> Seq<RuleSpec> {
    v.map_values(|r: Rule| r@)
}

/// Parsed result of a CODEOWNERS file: its rules, the last declared first.
#[derive(Debug, PartialEq, Eq)]
pub struct Owners {
    /// Where the rules were read from; `-` where no file was read.
    pub location: String,
    /// The rules in reverse order of declaration.
    pub rules: Vec<Rule>,
}

impl View for Owners {
    type V = Seq<RuleSpec>;

    open spec fn view(&self) -> Seq<RuleSpec> {
        rule_views(self.rules@)
    }
}

/// The owners that the tokens name, in order, tokens that name none left out.
pub open spec fn owners_of_tokens(toks: Seq<Seq<char>>) -> Seq<(OwnerKind, Seq<char>)>
    decreases toks.len(),
{
    if toks.len() == 0 {
        seq![]
    } else {
        let prev = owners_of_tokens(toks.drop_last());
        match parse_owner(toks.last()) {
            Some(o) => prev.push(o),
            None => prev,
        }
    }
}

/// The rule on the line numbered `number`: none for an empty line, a comment
/// (first character `#`), a line of whitespace, or a line whose glob the glob
/// crate refuses; else the first token gives the pattern and the others the
/// candidate owners.
pub open spec fn rule_of_line(line: Seq<char>, number: nat) -> Option<RuleSpec> {
    let toks = tokens(line);
    if line.len() == 0 || line[0] == '#' || toks.len() == 0 || !glob_valid(normalize(toks[0])) {
        None
    } else {
        Some(
            RuleSpec {
                line: number,
                pattern: normalize(toks[0]),
                owners: owners_of_tokens(toks.drop_first()),
            },
        )
    }
}

/// The rules of the given lines in order of declaration, numbered from 1.
pub open spec fn rules_of_lines(lines: Seq<Seq<char>>) -> Seq<RuleSpec>
    decreases lines.len(),
{
    if lines.len() == 0 {
        seq![]
    } else {
        let prev = rules_of_lines(lines.drop_last());
        match rule_of_line(lines.last(), lines.len()) {
            Some(r) => prev.push(r),
            None => prev,
        }
    }
}

/// The rules of a CODEOWNERS text in order of declaration.
pub open spec fn declared_rules(text: Seq<char>) -> Seq<RuleSpec> {
    rules_of_lines(lines_of(text))
}

/// The owners of `path` under rules held with the highest precedence first:
/// those of the first rule that owns it, or `None` where no rule does.
pub open spec fn resolve(rules: Seq<RuleSpec>, path: Seq<char>) -> Option<
    Seq<(OwnerKind, Seq<char>)>,
>
    decreases rules.len(),
{
    if rules.len() == 0 {
        None
    } else if pattern_owns(rules[0].pattern, path) {
        Some(rules[0].owners)
    } else {
        resolve(rules.drop_first(), path)
    }
}

/// The rule that the line `line`, numbered `number`, declares.
pub fn parse_line(line: &Vec<char>, number: usize) -> (r: Option<Rule>)
    ensures
        rule_of_line(line@, number as nat) == match r {
            Some(x) => Some(x@),
            None => None::<RuleSpec>,
        },
{
    if line.len() == 0 || line[0] == '#' {
        return None;
    }
    let toks = split_tokens(line);
    if toks.len() == 0 {
        return None;
    }
    let ghost tv = views(toks@);
    let pattern = string_of(&normalize_chars(&toks[0]));
    if !glob_accepts(pattern.as_str()) {
        return None;
    }
    let mut owners: Vec<Owner> = Vec::new();
    let mut j: usize = 1;
    while j < toks.len()
        invariant
            1 <= j <= toks.len(),
            tv == views(toks@),
            owner_views(owners@) == owners_of_tokens(tv.subrange(1, j as int)),
        decreases toks.len() - j,
    {
        proof {
            assert(tv.subrange(1, j + 1).drop_last() =~= tv.subrange(1, j as int));
        }
        let ghost before = owner_views(owners@);
        match kind_of(&toks[j]) {
            Some(k) => {
                owners.push(Owner::new(k, string_of(&toks[j])));
                assert(owner_views(owners@) =~= before.push((k, tv[j as int])));
            },
            None => {},
        }
        j = j + 1;
    }
    assert(tv.subrange(1, toks.len() as int) =~= tv.drop_first());
    Some(Rule { line: number, pattern, owners })
}

/// Parse a CODEOWNERS text read from `location`.
///
/// Lines are numbered from 1 in the text as given, comments and blank lines
/// included. Owner tokens that name no owner are left out of their rule. A
/// line whose pattern the glob crate refuses is skipped, as a malformed owner
/// token is: it gives no rule and does not stop the parse.
pub fn from_reader(location: &str, text: &str) -> (r: Owners)
    ensures
        r@ == declared_rules(text@).reverse(),
        r.location@ == location@,
{
    let chars = chars_of(text);
    let lines = split_lines(&chars);
    let ghost lv = views(lines@);
    let mut declared: Vec<Rule> = Vec::new();
    let mut i: usize = 0;
    while i < lines.len()
        invariant
            i <= lines.len(),
            lv == views(lines@),
            rule_views(declared@) == rules_of_lines(lv.subrange(0, i as int)),
        decreases lines.len() - i,
    {
        proof {
            assert(lv.subrange(0, i + 1).drop_last() =~= lv.subrange(0, i as int));
        }
        let ghost before = rule_views(declared@);
        match parse_line(&lines[i], i + 1) {
            Some(rule) => {
                declared.push(rule);
                assert(rule_views(declared@) =~= before.push(rule@));
            },
            None => {},
        }
        i = i + 1;
    }
    assert(lv.subrange(0, lines.len() as int) =~= lv);
    let ghost all = declared@;
    let ghost n = all.len();
    let mut rules: Vec<Rule> = Vec::new();
    loop
        invariant
            n == all.len(),
            rules@.len() + declared@.len() == n,
            declared@ == all.subrange(0, declared@.len() as int),
            forall|k: int| 0 <= k < rules@.len() ==> #[trigger] rules@[k] == all[n - 1 - k],
        ensures
            rules@.len() == n,
            forall|k: int| 0 <= k < n ==> #[trigger] rules@[k] == all[n - 1 - k],
        decreases declared@.len(),
    {
        match declared.pop() {
            Some(rule) => {
                assert(declared@ =~= all.subrange(0, declared@.len() as int));
                rules.push(rule);
            },
            None => {
                break ;
            },
        }
    }
    assert(rule_views(rules@) =~= rule_views(all).reverse());
    Owners { location: String::from_str(location), rules }
}

impl Owners {
    /// Where the rules were read from.
    pub fn location(&self) -> (r: &str)
        ensures
            r@ == self.location@,
    {
        self.location.as_str()
    }

    /// The owners of `path`: those of the rule with the highest precedence
    /// that owns it, or `None` where no rule does. A rule with no owners that
    /// owns the path gives an empty list, not `None`.
    pub fn of(&self, path: &str) -> (r: Option<&Vec<Owner>>)
        ensures
            resolve(self@, path@) == match r {
                Some(o) => Some(owner_views(o@)),
                None => None::<Seq<(OwnerKind, Seq<char>)>>,
            },
    {
        let ghost all = self@;
        assert(all.subrange(0, all.len() as int) =~= all);
        let mut i: usize = 0;
        while i < self.rules.len()
            invariant
                i <= self.rules.len(),
                all == self@,
                resolve(all, path@) == resolve(all.subrange(i as int, all.len() as int), path@),
            decreases self.rules.len() - i,
        {
            let ghost rest = all.subrange(i as int, all.len() as int);
            assert(rest.drop_first() =~= all.subrange(i + 1, all.len() as int));
            assert(rest[0] == all[i as int]);
            if owns(self.rules[i].pattern.as_str(), path) {
                return Some(&self.rules[i].owners);
            }
            i = i + 1;
        }
        None
    }
}

proof fn lemma_resolve_reversed(d: Seq<RuleSpec>, path: Seq<char>, k: int)
    requires
        0 <= k < d.len(),
        pattern_owns(d[k].pattern, path),
        forall|j: int| k < j < d.len() ==> !pattern_owns(#[trigger] d[j].pattern, path),
    ensures
        resolve(d.reverse(), path) == Some(d[k].owners),
    decreases d.len(),
{
    let r = d.reverse();
    assert(r[0] == d.last());
    if k < d.len() - 1 {
        assert(!pattern_owns(d[d.len() - 1].pattern, path));
        assert(r.drop_first() =~= d.drop_last().reverse());
        lemma_resolve_reversed(d.drop_last(), path, k);
    }
}

/// Last declared wins: on the table that `from_reader` builds from `text`,
/// a path gets the owners of the last rule of the file that owns it, whatever
/// earlier rules own it too.
pub proof fn lemma_last_declared_wins(text: Seq<char>, path: Seq<char>, k: int)
    requires
        0 <= k < declared_rules(text).len(),
        pattern_owns(declared_rules(text)[k].pattern, path),
        forall|j: int|
            k < j < declared_rules(text).len() ==> !pattern_owns(
                #[trigger] declared_rules(text)[j].pattern,
                path,
            ),
    ensures
        resolve(declared_rules(text).reverse(), path) == Some(declared_rules(text)[k].owners),
{
    lemma_resolve_reversed(declared_rules(text), path, k);
}

/// A path is unowned (`None`) exactly when no rule owns it; otherwise it gets
/// the owners of a rule that owns it, an empty list of owners included.
pub proof fn lemma_unowned_iff_no_rule(rules: Seq<RuleSpec>, path: Seq<char>)
    ensures
        resolve(rules, path) is None <==> forall|i: int|
            0 <= i < rules.len() ==> !pattern_owns(#[trigger] rules[i].pattern, path),
        resolve(rules, path) is Some ==> exists|i: int|
            0 <= i < rules.len() && pattern_owns(#[trigger] rules[i].pattern, path) && resolve(
                rules,
                path,
            ) == Some(rules[i].owners),
    decreases rules.len(),
{
    if rules.len() > 0 {
        let rest = rules.drop_first();
        lemma_unowned_iff_no_rule(rest, path);
        if !pattern_owns(rules[0].pattern, path) {
            assert forall|i: int| 0 <= i < rules.len() && i > 0 implies #[trigger] rules[i]
                == rest[i - 1] by {}
            if resolve(rest, path) is Some {
                let i = choose|i: int|
                    0 <= i < rest.len() && pattern_owns(#[trigger] rest[i].pattern, path)
                        && resolve(rest, path) == Some(rest[i].owners);
                assert(rules[i + 1] == rest[i]);
            }
        }
    }
}

} // verus!
