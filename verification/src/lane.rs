use vstd::prelude::*;

verus! {

/// One stored timeline item: a note or an automation point.
///
/// `delay` is the item's sub-line micro-timing (0..=255 ticks past the start
/// of its line). A `Note` with `off == true` is an explicit release
/// placeholder: it starts no new note but releases whatever note its lane
/// currently holds.
#[derive(Clone, Copy, Debug, PartialEq, Eq, Structural)]
pub enum LaneItem {
    Note { key: i16, velocity: u8, off: bool, delay: u8 },
    Point { value: u8, automation_index: usize, delay: u8 },
}

impl LaneItem {
    /// The item's sub-line delay in ticks.
    pub open spec fn spec_delay(self) -> u8 {
        match self {
            LaneItem::Note { delay, .. } => delay,
            LaneItem::Point { delay, .. } => delay,
        }
    }

    pub fn delay(&self) -> (d: u8)
        ensures
            d == self.spec_delay(),
    {
        match self {
            LaneItem::Note { delay, .. } => *delay,
            LaneItem::Point { delay, .. } => *delay,
        }
    }
}

/// The item stored at `line` in a list of `(line, item)` entries: the first
/// entry whose line matches, if any.
pub open spec fn lookup(entries: Seq<(u64, LaneItem)>, line: u64) -> Option<LaneItem>
    decreases entries.len(),
{
    if entries.len() == 0 {
        None
    } else if entries[0].0 == line {
        Some(entries[0].1)
    } else {
        lookup(entries.drop_first(), line)
    }
}

/// One timeline channel within a track: a sparse mapping from line number to
/// the item stored at that line. A well-formed lane stores at most one item
/// per line; `put` preserves that shape.
#[derive(Clone, Debug)]
pub struct Lane {
    pub items: Vec<(u64, LaneItem)>,
}

impl Lane {
    /// At most one stored entry per line.
    pub open spec fn wf(self) -> bool {
        forall|i: int, j: int|
            0 <= i < j < self.items@.len() ==> self.items@[i].0 != self.items@[j].0
    }

    /// The item this lane stores at `line`, if any.
    pub open spec fn spec_item_at(self, line: u64) -> Option<LaneItem> {
        lookup(self.items@, line)
    }

    pub fn new() -> (lane: Lane)
        ensures
            lane.items@.len() == 0,
            lane.wf(),
    {
        Lane { items: Vec::new() }
    }

    /// Look up the item stored exactly at `line` (absent means `None`).
    pub fn item_at(&self, line: u64) -> (r: Option<LaneItem>)
        ensures
            r == self.spec_item_at(line),
    {
        proof {
            assert(self.items@.skip(0) =~= self.items@);
        }
        let mut i: usize = 0;
        while i < self.items.len()
            invariant
                i <= self.items@.len(),
                lookup(self.items@, line) == lookup(self.items@.skip(i as int), line),
            decreases self.items@.len() - i,
        {
            proof {
                assert(self.items@.skip(i as int)[0] == self.items@[i as int]);
            }
            let (l, item) = self.items[i];
            if l == line {
                return Some(item);
            }
            proof {
                assert(self.items@.skip(i as int).drop_first() =~= self.items@.skip(
                    i as int + 1,
                ));
            }
            i = i + 1;
        }
        proof {
            assert(self.items@.skip(i as int) =~= Seq::<(u64, LaneItem)>::empty());
        }
        None
    }

    /// Store `item` at `line`, replacing any item already stored there.
    pub fn put(&mut self, line: u64, item: LaneItem)
        ensures
            final(self).spec_item_at(line) == Some(item),
            forall|l2: u64|
                l2 != line ==> final(self).spec_item_at(l2) == old(self).spec_item_at(l2),
            old(self).wf() ==> final(self).wf(),
    {
        let ghost entries0 = self.items@;
        let mut i: usize = 0;
        while i < self.items.len()
            invariant
                i <= self.items@.len(),
                self.items@ == entries0,
                entries0 == old(self).items@,
                forall|j: int| 0 <= j < i ==> self.items@[j].0 != line,
            decreases self.items@.len() - i,
        {
            let (l, _) = self.items[i];
            if l == line {
                self.items.set(i, (line, item));
                proof {
                    assert(self.items@ == entries0.update(i as int, (line, item)));
                    lemma_lookup_update(entries0, line, i as int, (line, item));
                    assert forall|l2: u64| l2 != line implies self.spec_item_at(l2) == lookup(
                        entries0,
                        l2,
                    ) by {
                        lemma_lookup_update_other(entries0, l2, i as int, (line, item));
                    }
                    assert(forall|k: int|
                        0 <= k < entries0.len() ==> self.items@[k].0 == entries0[k].0);
                }
                return ;
            }
            i = i + 1;
        }
        self.items.push((line, item));
        proof {
            assert(self.items@ == entries0.push((line, item)));
            lemma_lookup_push(entries0, line, (line, item));
            lemma_lookup_none_of_all_differ(entries0, line);
            assert forall|l2: u64| l2 != line implies self.spec_item_at(l2) == lookup(
                entries0,
                l2,
            ) by {
                lemma_lookup_push(entries0, l2, (line, item));
            }
            assert(forall|k: int| 0 <= k < entries0.len() ==> self.items@[k].0 == entries0[k].0);
        }
    }
}

/// A successful lookup returns the payload of a stored entry for that line.
pub proof fn lemma_lookup_is_entry(entries: Seq<(u64, LaneItem)>, line: u64)
    ensures
        lookup(entries, line) matches Some(it) ==> exists|i: int|
            0 <= i < entries.len() && entries[i].0 == line && (#[trigger] entries[i]).1 == it,
    decreases entries.len(),
{
    if entries.len() > 0 {
        if entries[0].0 == line {
        } else {
            lemma_lookup_is_entry(entries.drop_first(), line);
            if lookup(entries, line) is Some {
                let j = choose|j: int|
                    0 <= j < entries.drop_first().len() && entries.drop_first()[j].0 == line && (
                    #[trigger] entries.drop_first()[j]).1 == lookup(entries, line)->Some_0;
                assert(entries[j + 1] == entries.drop_first()[j]);
            }
        }
    }
}

/// Appending an entry only affects lookups of its own line, and only when
/// that line was absent before.
proof fn lemma_lookup_push(entries: Seq<(u64, LaneItem)>, line: u64, e: (u64, LaneItem))
    ensures
        lookup(entries.push(e), line) == (if lookup(entries, line) is Some {
            lookup(entries, line)
        } else if e.0 == line {
            Some(e.1)
        } else {
            None::<LaneItem>
        }),
    decreases entries.len(),
{
    if entries.len() == 0 {
        assert(entries.push(e)[0] == e);
        assert(entries.push(e).drop_first() =~= Seq::<(u64, LaneItem)>::empty());
        assert(lookup(Seq::<(u64, LaneItem)>::empty(), line) is None);
    } else {
        assert(entries.push(e)[0] == entries[0]);
        assert(entries.push(e).drop_first() =~= entries.drop_first().push(e));
        lemma_lookup_push(entries.drop_first(), line, e);
    }
}

/// If no stored entry uses `line`, looking `line` up yields nothing.
proof fn lemma_lookup_none_of_all_differ(entries: Seq<(u64, LaneItem)>, line: u64)
    requires
        forall|j: int| 0 <= j < entries.len() ==> entries[j].0 != line,
    ensures
        lookup(entries, line) is None,
    decreases entries.len(),
{
    if entries.len() > 0 {
        lemma_lookup_none_of_all_differ(entries.drop_first(), line);
    }
}

/// Replacing the first entry that matches `line` makes lookups of `line`
/// return the replacement.
proof fn lemma_lookup_update(
    entries: Seq<(u64, LaneItem)>,
    line: u64,
    i: int,
    e: (u64, LaneItem),
)
    requires
        0 <= i < entries.len(),
        forall|j: int| 0 <= j < i ==> entries[j].0 != line,
        entries[i].0 == line,
        e.0 == line,
    ensures
        lookup(entries.update(i, e), line) == Some(e.1),
    decreases i,
{
    if i == 0 {
        assert(entries.update(i, e)[0] == e);
    } else {
        assert(entries.update(i, e).drop_first() =~= entries.drop_first().update(i - 1, e));
        lemma_lookup_update(entries.drop_first(), line, i - 1, e);
    }
}

/// Replacing an entry whose line differs from `l2`, with a replacement whose
/// line also differs from `l2`, leaves lookups of `l2` unchanged.
proof fn lemma_lookup_update_other(
    entries: Seq<(u64, LaneItem)>,
    l2: u64,
    i: int,
    e: (u64, LaneItem),
)
    requires
        0 <= i < entries.len(),
        entries[i].0 != l2,
        e.0 != l2,
    ensures
        lookup(entries.update(i, e), l2) == lookup(entries, l2),
    decreases i,
{
    if i == 0 {
        assert(entries.update(i, e)[0] == e);
        assert(entries.update(i, e).drop_first() =~= entries.drop_first());
    } else {
        assert(entries.update(i, e)[0] == entries[0]);
        assert(entries.update(i, e).drop_first() =~= entries.drop_first().update(i - 1, e));
        lemma_lookup_update_other(entries.drop_first(), l2, i - 1, e);
    }
}

} // verus!
