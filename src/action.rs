//! Recognising a progress notification in screen text: a line announcing a
//! completed quest, a new alchemy formula or a new crafting diagram, and the
//! known name that best matches the line after it.
use vstd::prelude::*;

use crate::pool::views;
use crate::text::{
    chars_of, contains_string, distinct, line_bounds, lines_of, slug_of, slug_range, trim_bounds,
    trimmed,
};

verus! {

/// A recognised piece of progress, with the known name it matched.
#[derive(Debug, PartialEq, Eq)]
pub enum Action {
    Quest(String),
    Formula(String),
    Diagram(String),
}

/// The kind of an announcement line.
#[derive(Debug, Clone, Copy, PartialEq, Eq, Structural)]
pub enum ActionType {
    Quest,
    Formula,
    Diagram,
}

impl View for Action {
    type V = (ActionType, Seq<char>);

    open spec fn view(&self) -> (ActionType, Seq<char>) {
        match self {
            Action::Quest(s) => (ActionType::Quest, s@),
            Action::Formula(s) => (ActionType::Formula, s@),
            Action::Diagram(s) => (ActionType::Diagram, s@),
        }
    }
}

/// The known names, each already a slug, that announcements are matched against.
pub struct NameLists {
    pub quests: Vec<String>,
    pub formulae: Vec<String>,
    pub diagrams: Vec<String>,
}

/// The known names in `text`, one per line: the slug of each line of the
/// trimmed text, each name once, in order of first appearance.
pub fn name_list(text: &str) -> (r: Vec<String>)
    ensures
        views(r@) == distinct(lines_of(trimmed(text@)).map_values(|l: Seq<char>| slug_of(l))),
{
    let cs = chars_of(text);
    let (a, b) = trim_bounds(&cs);
    let bounds = line_bounds(&cs, a, b);
    let ghost slugs = lines_of(trimmed(text@)).map_values(|l: Seq<char>| slug_of(l));
    let mut out: Vec<String> = Vec::new();
    let mut k: usize = 0;
    assert(slugs.subrange(0, 0) =~= Seq::<Seq<char>>::empty());
    assert(views(out@) =~= Seq::<Seq<char>>::empty());
    while k < bounds.len()
        invariant
            slugs.len() == bounds@.len(),
            slugs == lines_of(cs@.subrange(a as int, b as int)).map_values(
                |l: Seq<char>| slug_of(l),
            ),
            k <= bounds@.len(),
            forall|j: int|
                0 <= j < bounds@.len() ==> {
                    &&& (#[trigger] bounds@[j]).0 <= bounds@[j].1 <= cs@.len()
                    &&& cs@.subrange(bounds@[j].0 as int, bounds@[j].1 as int) == lines_of(
                        cs@.subrange(a as int, b as int),
                    )[j]
                },
            views(out@) == distinct(slugs.subrange(0, k as int)),
        decreases bounds@.len() - k,
    {
        let (from, to) = bounds[k];
        let slug = slug_range(&cs, from, to);
        let ghost before = out@;
        assert(slugs.subrange(0, k + 1).drop_last() =~= slugs.subrange(0, k as int));
        assert(slug@ == slugs[k as int]);
        if !contains_string(&out, &slug) {
            out.push(slug);
            assert(views(out@) =~= views(before).push(slugs[k as int]));
        }
        k = k + 1;
    }
    assert(slugs.subrange(0, k as int) =~= slugs);
    out
}

/// The Damerau-Levenshtein distance between two character sequences.
pub uninterp spec fn dl_distance(a: Seq<char>, b: Seq<char>) -> nat;

/// Relies on strsim::damerau_levenshtein: the edit distance between the two
/// strings' characters, counting insertions, deletions, substitutions and
/// transpositions of adjacent characters.
#[verifier::external_body]
fn edit_distance(a: &str, b: &str) -> (r: usize)
    ensures
        r == dl_distance(a@, b@),
{
    strsim::damerau_levenshtein(a, b)
}

/// The larger of two lengths: what a distance is normalised by.
pub open spec fn longest(a: Seq<char>, b: Seq<char>) -> nat {
    if a.len() >= b.len() {
        a.len()
    } else {
        b.len()
    }
}

/// Whether the normalised similarity `1 - distance / longest` is above 7/10;
/// two empty strings have similarity 1.
pub open spec fn above_threshold(distance: nat, longest: nat) -> bool {
    longest == 0 || 10 * (longest - distance) > 7 * longest
}

/// Whether the normalised similarity is at least 7/10.
pub open spec fn reaches_threshold(distance: nat, longest: nat) -> bool {
    longest == 0 || 10 * (longest - distance) >= 7 * longest
}

/// Whether the similarity of the first pair is higher than that of the
/// second: `1 - d1 / m1 > 1 - d2 / m2`, compared as fractions.
pub open spec fn scores_higher(d1: nat, m1: nat, d2: nat, m2: nat) -> bool {
    let (e1, n1) = if m1 == 0 {
        (0nat, 1nat)
    } else {
        (d1, m1)
    };
    let (e2, n2) = if m2 == 0 {
        (0nat, 1nat)
    } else {
        (d2, m2)
    };
    e1 * n2 < e2 * n1
}

/// Whether a pair of `distance` and `longest` length is similar enough to
/// announce an action.
pub fn similar(distance: usize, longest: usize) -> (r: bool)
    ensures
        r == above_threshold(distance as nat, longest as nat),
{
    let m = longest as i128;
    longest == 0 || 10 * (m - distance as i128) > 7 * m
}

/// Whether a pair of `distance` and `longest` length is close enough to
/// count as a match.
pub fn close_enough(distance: usize, longest: usize) -> (r: bool)
    ensures
        r == reaches_threshold(distance as nat, longest as nat),
{
    let m = longest as i128;
    longest == 0 || 10 * (m - distance as i128) >= 7 * m
}

/// The index of the best match among the first `n` scores (distance and
/// longest length): the first of the highest similarities that reach the
/// threshold.
pub open spec fn best_upto(s: Seq<(nat, nat)>, n: int) -> Option<int>
    decreases n,
{
    if n <= 0 {
        None
    } else {
        let b = best_upto(s, n - 1);
        let (d, m) = s[n - 1];
        if reaches_threshold(d, m) && (b is None || scores_higher(
            d,
            m,
            s[b->Some_0].0,
            s[b->Some_0].1,
        )) {
            Some(n - 1)
        } else {
            b
        }
    }
}

/// The scores of `v` as natural numbers.
pub open spec fn nat_scores(v: Seq<(usize, usize)>) -> Seq<(nat, nat)> {
    v.map_values(|p: (usize, usize)| (p.0 as nat, p.1 as nat))
}

proof fn lemma_best_upto_bounds(s: Seq<(nat, nat)>, n: int)
    ensures
        best_upto(s, n) is Some ==> 0 <= best_upto(s, n)->Some_0 < n,
    decreases n,
{
    if n > 0 {
        lemma_best_upto_bounds(s, n - 1);
    }
}

fn higher(d1: usize, m1: usize, d2: usize, m2: usize) -> (r: bool)
    ensures
        r == scores_higher(d1 as nat, m1 as nat, d2 as nat, m2 as nat),
{
    let (e1, n1): (u128, u128) = if m1 == 0 {
        (0, 1)
    } else {
        (d1 as u128, m1 as u128)
    };
    let (e2, n2): (u128, u128) = if m2 == 0 {
        (0, 1)
    } else {
        (d2 as u128, m2 as u128)
    };
    assert(e1 * n2 <= 0xffff_ffff_ffff_ffff * 0xffff_ffff_ffff_ffff) by (nonlinear_arith)
        requires
            e1 <= 0xffff_ffff_ffff_ffff,
            n2 <= 0xffff_ffff_ffff_ffff,
    ;
    assert(e2 * n1 <= 0xffff_ffff_ffff_ffff * 0xffff_ffff_ffff_ffff) by (nonlinear_arith)
        requires
            e2 <= 0xffff_ffff_ffff_ffff,
            n1 <= 0xffff_ffff_ffff_ffff,
    ;
    e1 * n2 < e2 * n1
}

/// Picks the best match from the scores of each candidate: the first of the
/// highest similarities that reach the threshold, if any does.
pub fn best_match(scores: &Vec<(usize, usize)>) -> (r: Option<usize>)
    ensures
        match r {
            Some(i) => best_upto(nat_scores(scores@), scores@.len() as int) == Some(i as int),
            None => best_upto(nat_scores(scores@), scores@.len() as int) is None,
        },
{
    let ghost s = nat_scores(scores@);
    let mut best: Option<usize> = None;
    let mut k: usize = 0;
    while k < scores.len()
        invariant
            k <= scores@.len(),
            s == nat_scores(scores@),
            match best {
                Some(i) => best_upto(s, k as int) == Some(i as int),
                None => best_upto(s, k as int) is None,
            },
        decreases scores@.len() - k,
    {
        proof {
            lemma_best_upto_bounds(s, k as int);
        }
        let (d, m) = scores[k];
        if close_enough(d, m) {
            match best {
                None => {
                    best = Some(k);
                },
                Some(b) => {
                    let (bd, bm) = scores[b];
                    if higher(d, m, bd, bm) {
                        best = Some(k);
                    }
                },
            }
        }
        k = k + 1;
    }
    best
}

/// The scores of `word` against each of `candidates`.
pub open spec fn scores_for(word: Seq<char>, candidates: Seq<Seq<char>>) -> Seq<(nat, nat)> {
    candidates.map_values(|c: Seq<char>| (dl_distance(word, c), longest(word, c)))
}

/// The candidate that best matches `word`, as `best_upto` picks it.
pub open spec fn closest_spec(word: Seq<char>, candidates: Seq<Seq<char>>) -> Option<Seq<char>> {
    match best_upto(scores_for(word, candidates), candidates.len() as int) {
        Some(i) => Some(candidates[i]),
        None => None,
    }
}

/// The candidate most similar to `word`, among those whose similarity
/// reaches the threshold; the earliest one on a tie.
pub fn get_closest_match(word: &String, candidates: &Vec<String>) -> (r: Option<String>)
    ensures
        match r {
            Some(s) => closest_spec(word@, views(candidates@)) == Some(s@),
            None => closest_spec(word@, views(candidates@)) is None,
        },
{
    let ghost cands = views(candidates@);
    let mut scores: Vec<(usize, usize)> = Vec::new();
    let mut k: usize = 0;
    while k < candidates.len()
        invariant
            k <= candidates@.len(),
            cands == views(candidates@),
            nat_scores(scores@) == scores_for(word@, cands).subrange(0, k as int),
        decreases candidates@.len() - k,
    {
        let c = &candidates[k];
        let d = edit_distance(word.as_str(), c.as_str());
        let wl = word.as_str().unicode_len();
        let cl = c.as_str().unicode_len();
        let m = if wl >= cl {
            wl
        } else {
            cl
        };
        let ghost before = scores@;
        scores.push((d, m));
        proof {
            assert(nat_scores(scores@) =~= nat_scores(before).push((d as nat, m as nat)));
            assert(scores_for(word@, cands).subrange(0, k + 1) =~= scores_for(word@, cands).subrange(
                0,
                k as int,
            ).push(scores_for(word@, cands)[k as int]));
        }
        k = k + 1;
    }
    assert(scores_for(word@, cands).subrange(0, k as int) =~= scores_for(word@, cands));
    match best_match(&scores) {
        Some(i) => {
            proof {
                lemma_best_upto_bounds(nat_scores(scores@), scores@.len() as int);
            }
            Some(candidates[i].clone())
        },
        None => None,
    }
}

/// Whether `a` is similar enough to `b` to announce an action.
pub open spec fn check_str_spec(a: Seq<char>, b: Seq<char>) -> bool {
    above_threshold(dl_distance(a, b), longest(a, b))
}

/// Whether `a` is similar enough to `b` to announce an action.
pub fn check_str(a: &str, b: &str) -> (r: bool)
    ensures
        r == check_str_spec(a@, b@),
{
    let d = edit_distance(a, b);
    let al = a.unicode_len();
    let bl = b.unicode_len();
    similar(
        d,
        if al >= bl {
            al
        } else {
            bl
        },
    )
}

/// The kind of announcement that the slug of a line makes, if any.
pub open spec fn action_of(slug: Seq<char>) -> Option<ActionType> {
    if check_str_spec(slug, "quest completed"@) {
        Some(ActionType::Quest)
    } else if check_str_spec(slug, "new alchemy formula"@) {
        Some(ActionType::Formula)
    } else if check_str_spec(slug, "new crafting diagram"@) {
        Some(ActionType::Diagram)
    } else {
        None
    }
}

fn action_of_slug(slug: &str) -> (r: Option<ActionType>)
    ensures
        r == action_of(slug@),
{
    if check_str(slug, "quest completed") {
        Some(ActionType::Quest)
    } else if check_str(slug, "new alchemy formula") {
        Some(ActionType::Formula)
    } else if check_str(slug, "new crafting diagram") {
        Some(ActionType::Diagram)
    } else {
        None
    }
}

/// The first line from `k` on that announces an action, with its kind.
pub open spec fn first_action(lines: Seq<Seq<char>>, k: int) -> Option<(int, ActionType)>
    decreases lines.len() - k,
{
    if k < 0 || k >= lines.len() {
        None
    } else {
        match action_of(slug_of(lines[k])) {
            Some(a) => Some((k, a)),
            None => first_action(lines, k + 1),
        }
    }
}

/// What `parse_action` recognises in `text`: the first announcement line,
/// and the known name of its kind closest to the slug of the line after it.
pub open spec fn parse_action_spec(
    text: Seq<char>,
    quests: Seq<Seq<char>>,
    formulae: Seq<Seq<char>>,
    diagrams: Seq<Seq<char>>,
) -> Option<(ActionType, Seq<char>)> {
    let ls = lines_of(trimmed(text));
    match first_action(ls, 0) {
        None => None,
        Some((k, a)) => if k + 1 >= ls.len() {
            None
        } else {
            let list = match a {
                ActionType::Quest => quests,
                ActionType::Formula => formulae,
                ActionType::Diagram => diagrams,
            };
            match closest_spec(slug_of(ls[k + 1]), list) {
                Some(name) => Some((a, name)),
                None => None,
            }
        },
    }
}

proof fn lemma_first_action_bounds(lines: Seq<Seq<char>>, k: int)
    ensures
        first_action(lines, k) matches Some((j, _)) ==> k <= j < lines.len(),
    decreases lines.len() - k,
{
    if 0 <= k < lines.len() {
        lemma_first_action_bounds(lines, k + 1);
    }
}

/// The first line (given by its bounds in `cs`) that announces an action,
/// with the kind of action.
fn find_action(cs: &Vec<char>, bounds: &Vec<(usize, usize)>, ls: Ghost<Seq<Seq<char>>>) -> (r: Option<
    (usize, ActionType),
>)
    requires
        ls@.len() == bounds@.len(),
        forall|j: int|
            0 <= j < bounds@.len() ==> {
                &&& (#[trigger] bounds@[j]).0 <= bounds@[j].1 <= cs@.len()
                &&& cs@.subrange(bounds@[j].0 as int, bounds@[j].1 as int) == ls@[j]
            },
    ensures
        match r {
            Some((k, t)) => k < ls@.len() && first_action(ls@, 0) == Some((k as int, t)),
            None => first_action(ls@, 0) is None,
        },
{
    let mut k: usize = 0;
    let mut found: Option<ActionType> = None;
    while found.is_none() && k < bounds.len()
        invariant
            ls@.len() == bounds@.len(),
            k <= bounds@.len(),
            forall|j: int|
                0 <= j < bounds@.len() ==> {
                    &&& (#[trigger] bounds@[j]).0 <= bounds@[j].1 <= cs@.len()
                    &&& cs@.subrange(bounds@[j].0 as int, bounds@[j].1 as int) == ls@[j]
                },
            found is None ==> first_action(ls@, 0) == first_action(ls@, k as int),
            found matches Some(t) ==> k < ls@.len() && first_action(ls@, 0) == Some((k as int, t)),
        decreases bounds@.len() - k + (if found is None {
            1int
        } else {
            0
        }),
    {
        let (from, to) = bounds[k];
        let slug = slug_range(cs, from, to);
        match action_of_slug(slug.as_str()) {
            Some(t) => {
                found = Some(t);
            },
            None => {
                k = k + 1;
            },
        }
    }
    match found {
        Some(t) => Some((k, t)),
        None => None,
    }
}

/// Finds the first announcement in `text` and matches the line after it
/// against the known names of that kind.
pub fn parse_action(text: &str, lists: &NameLists) -> (r: Option<Action>)
    ensures
        match r {
            Some(a) => parse_action_spec(
                text@,
                views(lists.quests@),
                views(lists.formulae@),
                views(lists.diagrams@),
            ) == Some(a@),
            None => parse_action_spec(
                text@,
                views(lists.quests@),
                views(lists.formulae@),
                views(lists.diagrams@),
            ) is None,
        },
{
    let cs = chars_of(text);
    let (a, b) = trim_bounds(&cs);
    let bounds = line_bounds(&cs, a, b);
    let ghost ls = lines_of(trimmed(text@));
    assert(ls == lines_of(cs@.subrange(a as int, b as int)));
    let (k, kind) = match find_action(&cs, &bounds, Ghost(ls)) {
        Some(found) => found,
        None => {
            return None;
        },
    };
    if bounds.len() - k <= 1 {
        return None;
    }
    let (from, to) = bounds[k + 1];
    let target = slug_range(&cs, from, to);
    let list = match kind {
        ActionType::Quest => &lists.quests,
        ActionType::Formula => &lists.formulae,
        ActionType::Diagram => &lists.diagrams,
    };
    match get_closest_match(&target, list) {
        Some(name) => Some(
            match kind {
                ActionType::Quest => Action::Quest(name),
                ActionType::Formula => Action::Formula(name),
                ActionType::Diagram => Action::Diagram(name),
            },
        ),
        None => None,
    }
}

} // verus!
