//! Counting completed quests in the progress report that a save exporter
//! writes.
use vstd::prelude::*;

use crate::pool::views;
use crate::text::{contains_string, distinct, str_eq, to_ascii_upper, upper_of};

verus! {

/// One quest of a progress report.
#[derive(Debug, PartialEq, Eq)]
pub struct Quest {
    pub guid: String,
    pub status: String,
}

/// A progress report: the state of each quest, and the tags of the map pins.
#[derive(Debug, PartialEq, Eq)]
pub struct TrackerInfo {
    pub quests: Vec<Quest>,
    pub map_pin_tag: Vec<String>,
}

/// The guid and status of each quest.
pub open spec fn quest_views(qs: Seq<Quest>) -> Seq<(Seq<char>, Seq<char>)> {
    qs.map_values(|q: Quest| (q.guid@, q.status@))
}

/// The upper-cased guids of the quests with status `"Success"` that are
/// among `known`, in report order.
pub open spec fn success_guids(qs: Seq<(Seq<char>, Seq<char>)>, known: Seq<Seq<char>>) -> Seq<
    Seq<char>,
>
    decreases qs.len(),
{
    if qs.len() == 0 {
        Seq::empty()
    } else {
        let rest = success_guids(qs.drop_last(), known);
        let q = qs.last();
        if q.1 == "Success"@ && known.contains(upper_of(q.0)) {
            rest.push(upper_of(q.0))
        } else {
            rest
        }
    }
}

impl TrackerInfo {
    /// How many different known quests the report marks as done; guids are
    /// compared without regard to ASCII case.
    pub fn count_done_quests(&self, known_guids: &Vec<String>) -> (r: usize)
        ensures
            r == distinct(
                success_guids(
                    quest_views(self.quests@),
                    views(known_guids@).map_values(|g: Seq<char>| upper_of(g)),
                ),
            ).len(),
    {
        let ghost qs = quest_views(self.quests@);
        let mut known: Vec<String> = Vec::new();
        let mut j: usize = 0;
        while j < known_guids.len()
            invariant
                j <= known_guids@.len(),
                views(known@) == views(known_guids@).map_values(|g: Seq<char>| upper_of(g)).subrange(
                    0,
                    j as int,
                ),
            decreases known_guids@.len() - j,
        {
            let ghost before = known@;
            known.push(to_ascii_upper(known_guids[j].as_str()));
            assert(views(known@) =~= views(before).push(upper_of(known_guids@[j as int]@)));
            assert(views(known@) =~= views(known_guids@).map_values(|g: Seq<char>| upper_of(g)).subrange(
                0,
                j + 1,
            ));
            j = j + 1;
        }
        let ghost k_up = views(known_guids@).map_values(|g: Seq<char>| upper_of(g));
        assert(views(known@) =~= k_up);
        let mut done: Vec<String> = Vec::new();
        let mut i: usize = 0;
        assert(views(done@) =~= Seq::<Seq<char>>::empty());
        assert(qs.subrange(0, 0) =~= Seq::<(Seq<char>, Seq<char>)>::empty());
        while i < self.quests.len()
            invariant
                i <= self.quests@.len(),
                qs == quest_views(self.quests@),
                views(known@) == k_up,
                views(done@) == distinct(success_guids(qs.subrange(0, i as int), k_up)),
            decreases self.quests@.len() - i,
        {
            let q = &self.quests[i];
            let ghost before = done@;
            assert(qs.subrange(0, i + 1).drop_last() =~= qs.subrange(0, i as int));
            assert(qs.subrange(0, i + 1).last() == (q.guid@, q.status@));
            if str_eq(q.status.as_str(), "Success") {
                let g = to_ascii_upper(q.guid.as_str());
                if contains_string(&known, &g) {
                    let ghost pre = success_guids(qs.subrange(0, i as int), k_up);
                    assert(success_guids(qs.subrange(0, i + 1), k_up) == pre.push(g@));
                    assert(pre.push(g@).drop_last() =~= pre);
                    if !contains_string(&done, &g) {
                        done.push(g);
                        assert(views(done@) =~= views(before).push(upper_of(q.guid@)));
                    }
                }
            }
            i = i + 1;
        }
        assert(qs.subrange(0, i as int) =~= qs);
        done.len()
    }

    /// Map pins are not counted yet: always 0.
    pub fn count_done_pins(&self) -> (r: usize)
        ensures
            r == 0,
    {
        0
    }
}

} // verus!
