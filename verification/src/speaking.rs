//! Who is speaking now, for the green ring of the voice.
//!
//! Measured on the sound that comes from each person. The speech lights up on the first
//! loud block and only goes out 350 ms after the last, because the codec sends no packet
//! in silence: it is the clock, not the next packet, that puts the ring out. Whether a
//! block is loud is decided on its samples, outside the library.

use vstd::prelude::*;

use crate::models::same_text;

verus! {

/// How long the speech stays lit after the last loud block, in milliseconds.
pub const TAIL_MS: u64 = 350;

/// The producers heard loud, and when they were last.
#[derive(Debug)]
pub struct Speaking {
    last_loud: Vec<(String, u64)>,
}

pub open spec fn entry_views(entries: Seq<(String, u64)>) -> Seq<(Seq<char>, u64)> {
    entries.map_values(|entry: (String, u64)| (entry.0@, entry.1))
}

/// No producer is held twice.
pub open spec fn distinct_names(entries: Seq<(Seq<char>, u64)>) -> bool {
    forall|i: int, j: int| 0 <= i < j < entries.len() ==> entries[i].0 != entries[j].0
}

proof fn lemma_filter_keeps_names_distinct(entries: Seq<(Seq<char>, u64)>, keep: spec_fn((Seq<char>, u64)) -> bool)
    requires
        distinct_names(entries),
    ensures
        distinct_names(entries.filter(keep)),
    decreases entries.len(),
{
    reveal(Seq::filter);
    if entries.len() > 0 {
        let rest = entries.drop_last();
        let last = entries.last();
        assert(distinct_names(rest)) by {
            assert forall|i: int, j: int| 0 <= i < j < rest.len() implies rest[i].0 != rest[j].0 by {
                assert(rest[i] == entries[i] && rest[j] == entries[j]);
            }
        }
        lemma_filter_keeps_names_distinct(rest, keep);
        if keep(last) {
            let kept = rest.filter(keep);
            assert forall|i: int| 0 <= i < kept.len() implies kept[i].0 != last.0 by {
                rest.lemma_filter_contains_rev(keep, kept[i]);
                let k = choose|k: int| 0 <= k < rest.len() && rest[k] == kept[i];
                assert(entries[k] == rest[k]);
                assert(entries[entries.len() - 1] == last);
            }
            assert(entries.filter(keep) == kept.push(last));
            assert forall|i: int, j: int| 0 <= i < j < kept.push(last).len() implies kept.push(last)[i].0
                != kept.push(last)[j].0 by {
                if j == kept.len() {
                    assert(kept.push(last)[j] == last);
                    assert(kept.push(last)[i] == kept[i]);
                } else {
                    assert(kept.push(last)[i] == kept[i] && kept.push(last)[j] == kept[j]);
                }
            }
        }
    }
}

pub open spec fn holds_name(entries: Seq<(Seq<char>, u64)>, producer: Seq<char>) -> bool {
    exists|i: int| 0 <= i < entries.len() && #[trigger] entries[i].0 == producer
}

/// The time went past the tail since the last loud block.
pub open spec fn gone_quiet(at: u64, now: u64) -> bool {
    now >= at && now - at >= TAIL_MS
}

pub open spec fn still_lit(now: u64) -> spec_fn((Seq<char>, u64)) -> bool {
    |entry: (Seq<char>, u64)| !gone_quiet(entry.1, now)
}

pub open spec fn gone_at(now: u64) -> spec_fn((Seq<char>, u64)) -> bool {
    |entry: (Seq<char>, u64)| gone_quiet(entry.1, now)
}

pub open spec fn entry_name() -> spec_fn((Seq<char>, u64)) -> Seq<char> {
    |entry: (Seq<char>, u64)| entry.0
}

pub open spec fn other_than(producer: Seq<char>) -> spec_fn((Seq<char>, u64)) -> bool {
    |entry: (Seq<char>, u64)| entry.0 != producer
}

impl View for Speaking {
    type V = Seq<(Seq<char>, u64)>;

    closed spec fn view(&self) -> Seq<(Seq<char>, u64)> {
        entry_views(self.last_loud@)
    }
}

/// Letting go of the quiet ones: each producer that went quiet comes out once, none of
/// them is held afterwards, and every producer still lit stays held with its time.
pub proof fn law_quiet_lets_each_go_once(entries: Seq<(Seq<char>, u64)>, now: u64)
    requires
        distinct_names(entries),
    ensures
        entries.filter(gone_at(now)).map_values(entry_name()).no_duplicates(),
        distinct_names(entries.filter(still_lit(now))),
        forall|i: int|
            0 <= i < entries.filter(gone_at(now)).len() ==> !holds_name(
                entries.filter(still_lit(now)),
                #[trigger] entries.filter(gone_at(now))[i].0,
            ),
        forall|i: int|
            0 <= i < entries.len() && !gone_quiet(entries[i].1, now) ==> entries.filter(still_lit(now)).contains(
                #[trigger] entries[i],
            ),
{
    let out = gone_at(now);
    let lit = still_lit(now);
    let gone = entries.filter(out);
    let kept = entries.filter(lit);
    lemma_filter_keeps_names_distinct(entries, out);
    lemma_filter_keeps_names_distinct(entries, lit);
    let names = gone.map_values(entry_name());
    assert forall|a: int, b: int| 0 <= a < names.len() && 0 <= b < names.len() && a != b implies names[a]
        != names[b] by {
        if a < b {
            assert(gone[a].0 != gone[b].0);
        } else {
            assert(gone[b].0 != gone[a].0);
        }
    }
    assert forall|i: int| 0 <= i < gone.len() implies !holds_name(kept, #[trigger] gone[i].0) by {
        if holds_name(kept, gone[i].0) {
            let k = choose|k: int| 0 <= k < kept.len() && #[trigger] kept[k].0 == gone[i].0;
            entries.lemma_filter_pred(out, i);
            entries.lemma_filter_pred(lit, k);
            entries.lemma_filter_contains_rev(out, gone[i]);
            entries.lemma_filter_contains_rev(lit, kept[k]);
            let x = choose|x: int| 0 <= x < entries.len() && entries[x] == gone[i];
            let y = choose|y: int| 0 <= y < entries.len() && entries[y] == kept[k];
            if x < y {
                assert(entries[x].0 != entries[y].0);
            } else if y < x {
                assert(entries[y].0 != entries[x].0);
            }
        }
    }
    assert forall|i: int| 0 <= i < entries.len() && !gone_quiet(entries[i].1, now) implies kept.contains(
        #[trigger] entries[i],
    ) by {
        entries.lemma_filter_contains(lit, i);
    }
}

impl Speaking {
    /// Each producer is held once: a loud block of one already held only moves its time.
    #[verifier::type_invariant]
    spec fn names_distinct(self) -> bool {
        distinct_names(entry_views(self.last_loud@))
    }
}

impl Default for Speaking {
    fn default() -> (speaking: Self)
        ensures
            speaking@ == Seq::<(Seq<char>, u64)>::empty(),
            distinct_names(speaking@),
    {
        let speaking = Speaking { last_loud: Vec::new() };
        proof {
            assert(speaking@ =~= Seq::<(Seq<char>, u64)>::empty());
        }
        speaking
    }
}

impl Speaking {
    fn position(&self, producer: &str) -> (found: Option<usize>)
        ensures
            match found {
                Some(i) => i < self@.len() && self@[i as int].0 == producer@ && forall|k: int| 0 <= k < i ==> self@[k].0
                    != producer@,
                None => !holds_name(self@, producer@),
            },
    {
        let mut index: usize = 0;

        while index < self.last_loud.len()
            invariant
                index <= self.last_loud.len(),
                self@.len() == self.last_loud@.len(),
                forall|k: int| 0 <= k < index ==> self@[k].0 != producer@,
            decreases self.last_loud.len() - index,
        {
            proof {
                assert(self@[index as int] == (self.last_loud@[index as int].0@, self.last_loud@[index as int].1));
            }
            if same_text(self.last_loud[index].0.as_str(), producer) {
                return Some(index);
            }
            index = index + 1;
        }

        None
    }

    /// A block of sound of a producer, loud or not. True when the producer just started
    /// speaking: only the turn is announced, not every loud block.
    pub fn heard(&mut self, producer: &str, loud: bool, now: u64) -> (started: bool)
        ensures
            !loud ==> !started && final(self)@ == old(self)@,
            loud ==> started == !holds_name(old(self)@, producer@),
            loud && !holds_name(old(self)@, producer@) ==> final(self)@ == old(self)@.push((producer@, now)),
            loud && holds_name(old(self)@, producer@) ==> exists|i: int|
                0 <= i < old(self)@.len() && old(self)@[i].0 == producer@ && #[trigger] final(self)@ == old(self)@.update(
                    i,
                    (producer@, now),
                ),
            distinct_names(final(self)@),
    {
        proof {
            use_type_invariant(&*self);
        }

        if !loud {
            return false;
        }

        match self.position(producer) {
            Some(i) => {
                let ghost before = self@;
                let entry = (String::from_str(producer), now);
                proof {
                    assert(entry_views(self.last_loud@.update(i as int, entry)) =~= before.update(i as int, (producer@, now)));
                    let after = before.update(i as int, (producer@, now));
                    assert forall|a: int, b: int| 0 <= a < b < after.len() implies after[a].0 != after[b].0 by {
                        if a != i && b != i {
                            assert(after[a] == before[a] && after[b] == before[b]);
                        } else if a == i {
                            assert(after[b] == before[b]);
                        } else {
                            assert(after[a] == before[a]);
                        }
                    }
                }
                let mut entries: Vec<(String, u64)> = Vec::new();
                std::mem::swap(&mut entries, &mut self.last_loud);
                entries.set(i, entry);
                self.last_loud = entries;
                proof {
                    assert(self@ =~= before.update(i as int, (producer@, now)));
                }
                false
            },
            None => {
                let ghost before = self@;
                let entry = (String::from_str(producer), now);
                proof {
                    assert(entry_views(self.last_loud@.push(entry)) =~= before.push((producer@, now)));
                    let after = before.push((producer@, now));
                    assert forall|a: int, b: int| 0 <= a < b < after.len() implies after[a].0 != after[b].0 by {
                        assert(after[a] == before[a]);
                        if b < before.len() {
                            assert(after[b] == before[b]);
                        }
                    }
                }
                let mut entries: Vec<(String, u64)> = Vec::new();
                std::mem::swap(&mut entries, &mut self.last_loud);
                entries.push(entry);
                self.last_loud = entries;
                proof {
                    assert(self@ =~= before.push((producer@, now)));
                }
                true
            },
        }
    }

    /// Who stopped speaking: the last loud block fell more than the tail behind. They are
    /// let go, in the order they were first heard.
    pub fn quiet(&mut self, now: u64) -> (gone: Vec<String>)
        ensures
            final(self)@ == old(self)@.filter(still_lit(now)),
            gone@.map_values(|name: String| name@) == old(self)@.filter(gone_at(now)).map_values(entry_name()),
            distinct_names(old(self)@),
            distinct_names(final(self)@),
            gone@.map_values(|name: String| name@).no_duplicates(),
            forall|i: int| 0 <= i < gone.len() ==> !holds_name(final(self)@, #[trigger] gone@[i]@),
    {
        proof {
            use_type_invariant(&*self);
        }
        let ghost all = self@;
        let ghost lit = still_lit(now);
        let ghost out = gone_at(now);
        let ghost name_of = entry_name();
        let ghost view_of = |name: String| name@;
        let mut kept: Vec<(String, u64)> = Vec::new();
        let mut gone: Vec<String> = Vec::new();
        let mut index: usize = 0;

        while index < self.last_loud.len()
            invariant
                index <= self.last_loud.len(),
                all == entry_views(self.last_loud@),
                lit == still_lit(now),
                out == gone_at(now),
                name_of == entry_name(),
                view_of == (|name: String| name@),
                entry_views(kept@) == all.take(index as int).filter(lit),
                gone@.map_values(view_of) == all.take(index as int).filter(out).map_values(name_of),
            decreases self.last_loud.len() - index,
        {
            let entry = &self.last_loud[index];
            proof {
                assert(all[index as int] == (entry.0@, entry.1));
                assert(all.take(index + 1) =~= all.take(index as int).push(all[index as int]));
                all.take(index as int).lemma_filter_push(all[index as int], lit);
                all.take(index as int).lemma_filter_push(all[index as int], out);
            }
            if now >= entry.1 && now - entry.1 >= TAIL_MS {
                let ghost before = gone@;
                gone.push(entry.0.clone());
                proof {
                    assert(gone@.map_values(view_of) =~= before.map_values(view_of).push(entry.0@));
                    assert(all.take(index as int).filter(out).push(all[index as int]).map_values(name_of) =~= all.take(
                        index as int,
                    ).filter(out).map_values(name_of).push(entry.0@));
                }
            } else {
                let ghost before = kept@;
                kept.push((entry.0.clone(), entry.1));
                proof {
                    assert(entry_views(kept@) =~= entry_views(before).push((entry.0@, entry.1)));
                }
            }
            index = index + 1;
        }

        proof {
            assert(all.take(index as int) =~= all);
            law_quiet_lets_each_go_once(all, now);
            let gone_names = gone@.map_values(view_of);
            assert forall|i: int| 0 <= i < gone.len() implies !holds_name(all.filter(lit), #[trigger] gone@[i]@) by {
                assert(gone_names[i] == gone@[i]@);
                assert(all.filter(out).map_values(name_of)[i] == all.filter(out)[i].0);
            }
        }

        self.last_loud = kept;
        gone
    }

    /// The producer closed: no ring stays lit for whoever left.
    pub fn forget(&mut self, producer: &str) -> (known: bool)
        ensures
            known == holds_name(old(self)@, producer@),
            final(self)@ == old(self)@.filter(other_than(producer@)),
            distinct_names(final(self)@),
    {
        proof {
            use_type_invariant(&*self);
        }
        let ghost all = self@;
        let ghost keep = other_than(producer@);
        let mut kept: Vec<(String, u64)> = Vec::new();
        let mut known = false;
        let mut index: usize = 0;

        while index < self.last_loud.len()
            invariant
                index <= self.last_loud.len(),
                all == entry_views(self.last_loud@),
                keep == other_than(producer@),
                entry_views(kept@) == all.take(index as int).filter(keep),
                known == holds_name(all.take(index as int), producer@),
            decreases self.last_loud.len() - index,
        {
            let entry = &self.last_loud[index];
            proof {
                assert(all[index as int] == (entry.0@, entry.1));
                assert(all.take(index + 1) =~= all.take(index as int).push(all[index as int]));
                all.take(index as int).lemma_filter_push(all[index as int], keep);
                if holds_name(all.take(index as int), producer@) {
                    let i = choose|i: int| 0 <= i < index && #[trigger] all.take(index as int)[i].0 == producer@;
                    assert(all.take(index + 1)[i].0 == producer@);
                }
                if holds_name(all.take(index + 1), producer@) && !(all[index as int].0 == producer@) {
                    let i = choose|i: int| 0 <= i < index + 1 && #[trigger] all.take(index + 1)[i].0 == producer@;
                    assert(all.take(index as int)[i].0 == producer@);
                }
                if all[index as int].0 == producer@ {
                    assert(all.take(index + 1)[index as int].0 == producer@);
                }
            }
            if same_text(entry.0.as_str(), producer) {
                known = true;
            } else {
                let ghost before = kept@;
                kept.push((entry.0.clone(), entry.1));
                proof {
                    assert(entry_views(kept@) =~= entry_views(before).push((entry.0@, entry.1)));
                }
            }
            index = index + 1;
        }

        proof {
            assert(all.take(index as int) =~= all);
            lemma_filter_keeps_names_distinct(all, keep);
        }

        self.last_loud = kept;
        known
    }

    pub fn is_speaking(&self, producer: &str) -> (speaking: bool)
        ensures
            speaking == holds_name(self@, producer@),
    {
        match self.position(producer) {
            Some(i) => {
                proof {
                    assert(self@[i as int].0 == producer@);
                }
                true
            },
            None => false,
        }
    }
}

} // verus!
