//! The bucketing index and the glyph renderer.
//!
//! A `View` is built once from an ordered sequence of samples: every sample
//! is filed under the canonical key of its 15-minute slot, buckets keep
//! insertion order, and the timestamp of the last sample of the input is
//! remembered as the latest-sample marker. Rendering then walks a window of
//! slots and emits one character per slot, oldest first.

use crate::glyph::{glyph_char, glyph_str, Glyph};
use crate::time::{day_start_of, is_hour_tick, slot_of, Timestamp};
use vstd::prelude::*;
use vstd::view::View as ViewTrait;

verus! {

/// One reading: an absolute instant and the reading's value, already
/// rounded to an integer. Values outside the display range 0 to 33 are
/// legal; they render as the out-of-range sentinel.
#[derive(Clone, Copy, PartialEq, Eq, Structural, Debug)]
pub struct Sample {
    pub at: Timestamp,
    pub value: i64,
}

/// A bucket: the samples of one slot, in insertion order, under the slot's
/// canonical key.
#[derive(Debug)]
pub struct SlotBucket {
    pub slot: Timestamp,
    pub samples: Vec<Sample>,
}

/// The bucketing index and renderer: buckets keyed by slot, plus the
/// latest-sample marker.
pub struct View {
    latest: Option<Timestamp>,
    groups: Vec<SlotBucket>,
}

/// The samples of `samples` that fall in the slot keyed `slot`, in order.
pub open spec fn slot_filter(samples: Seq<Sample>, slot: int) -> Seq<Sample> {
    samples.filter(|s: Sample| slot_of(s.at@) == slot)
}

/// What a freshly built index holds at `slot` for input `samples`: the
/// samples of that slot in insertion order, or nothing when no sample
/// falls there.
pub open spec fn bucket_model(samples: Seq<Sample>, slot: int) -> Option<Seq<Sample>> {
    if slot_filter(samples, slot).len() > 0 {
        Some(slot_filter(samples, slot))
    } else {
        None
    }
}

/// The bucket stored under `slot` in a sequence of buckets, by first match.
pub open spec fn bucket_in(groups: Seq<SlotBucket>, slot: int) -> Option<Seq<Sample>>
    decreases groups.len(),
{
    if groups.len() == 0 {
        None
    } else if groups[0].slot@ == slot {
        Some(groups[0].samples@)
    } else {
        bucket_in(groups.drop_first(), slot)
    }
}

/// When no bucket carries the key, the lookup misses.
proof fn lemma_bucket_in_none(groups: Seq<SlotBucket>, slot: int)
    requires
        forall|k: int| 0 <= k < groups.len() ==> groups[k].slot@ != slot,
    ensures
        bucket_in(groups, slot) is None,
    decreases groups.len(),
{
    if groups.len() > 0 {
        lemma_bucket_in_none(groups.drop_first(), slot);
    }
}

/// The lookup returns the bucket at the first index whose key matches.
proof fn lemma_bucket_in_at(groups: Seq<SlotBucket>, slot: int, i: int)
    requires
        0 <= i < groups.len(),
        groups[i].slot@ == slot,
        forall|k: int| 0 <= k < i ==> groups[k].slot@ != slot,
    ensures
        bucket_in(groups, slot) == Some(groups[i].samples@),
    decreases i,
{
    if i > 0 {
        lemma_bucket_in_at(groups.drop_first(), slot, i - 1);
    }
}

/// Every key stored in a bucket sequence is found by the lookup.
proof fn lemma_bucket_in_member(groups: Seq<SlotBucket>, k: int)
    requires
        0 <= k < groups.len(),
    ensures
        bucket_in(groups, groups[k].slot@) is Some,
    decreases k,
{
    if k > 0 && groups[0].slot@ != groups[k].slot@ {
        lemma_bucket_in_member(groups.drop_first(), k - 1);
    }
}

/// Appending a bucket with a fresh key leaves every other lookup alone and
/// makes the fresh key hit the new bucket.
proof fn lemma_bucket_in_push(groups: Seq<SlotBucket>, g: SlotBucket, slot: int)
    ensures
        bucket_in(groups.push(g), slot) == if bucket_in(groups, slot) is Some {
            bucket_in(groups, slot)
        } else if g.slot@ == slot {
            Some(g.samples@)
        } else {
            None
        },
    decreases groups.len(),
{
    if groups.len() == 0 {
        assert(groups.push(g)[0] == g);
        assert(groups.push(g).drop_first() =~= Seq::<SlotBucket>::empty());
        assert(bucket_in(Seq::<SlotBucket>::empty(), slot) is None);
        assert(bucket_in(groups, slot) is None);
    } else {
        assert(groups.push(g)[0] == groups[0]);
        assert(groups.push(g).drop_first() =~= groups.drop_first().push(g));
        lemma_bucket_in_push(groups.drop_first(), g, slot);
        if groups[0].slot@ == slot {
            assert(bucket_in(groups.push(g), slot) == Some(groups[0].samples@));
            assert(bucket_in(groups, slot) == Some(groups[0].samples@));
        } else {
            assert(bucket_in(groups.push(g), slot) == bucket_in(groups.drop_first().push(g), slot));
            assert(bucket_in(groups, slot) == bucket_in(groups.drop_first(), slot));
        }
    }
}

/// Replacing the bucket at the first index that carries its key changes
/// that key's lookup to the new bucket and no other lookup.
proof fn lemma_bucket_in_update(groups: Seq<SlotBucket>, i: int, g: SlotBucket, slot: int)
    requires
        0 <= i < groups.len(),
        g.slot@ == groups[i].slot@,
        forall|k: int| 0 <= k < i ==> groups[k].slot@ != groups[i].slot@,
    ensures
        bucket_in(groups.update(i, g), slot) == if slot == g.slot@ {
            Some(g.samples@)
        } else {
            bucket_in(groups, slot)
        },
    decreases i,
{
    let upd = groups.update(i, g);
    if i == 0 {
        assert(upd[0] == g);
        if slot != g.slot@ {
            assert(upd.drop_first() =~= groups.drop_first());
        }
    } else {
        assert(upd[0] == groups[0]);
        assert(upd.drop_first() =~= groups.drop_first().update(i - 1, g));
        lemma_bucket_in_update(groups.drop_first(), i - 1, g, slot);
    }
}

/// One step of the slot filter: appending a sample extends exactly the
/// bucket of its own slot.
proof fn lemma_slot_filter_push(samples: Seq<Sample>, x: Sample, slot: int)
    ensures
        slot_filter(samples.push(x), slot) == if slot_of(x.at@) == slot {
            slot_filter(samples, slot).push(x)
        } else {
            slot_filter(samples, slot)
        },
{
    reveal(Seq::filter);
    assert(samples.push(x).drop_last() =~= samples);
    assert(samples.push(x).last() == x);
}

impl View {
    /// Internal shape of the index: keys are canonical slot keys, no key
    /// repeats, no bucket is empty, and each bucket holds exactly the
    /// samples of its own slot.
    pub closed spec fn wf(self) -> bool {
        &&& forall|i: int, j: int|
            0 <= i < j < self.groups@.len() ==> self.groups@[i].slot@ != self.groups@[j].slot@
        &&& forall|i: int|
            0 <= i < self.groups@.len() ==> (#[trigger] self.groups@[i]).samples@.len() > 0
        &&& forall|i: int, k: int|
            0 <= i < self.groups@.len() && 0 <= k < self.groups@[i].samples@.len()
                ==> slot_of(#[trigger] self.groups@[i].samples@[k].at@) == self.groups@[i].slot@
        &&& forall|i: int|
            0 <= i < self.groups@.len() ==> slot_of((#[trigger] self.groups@[i]).slot@)
                == self.groups@[i].slot@
    }

    /// The latest-sample marker: the instant of the last input sample.
    pub closed spec fn latest_spec(self) -> Option<int> {
        match self.latest {
            Some(t) => Some(t@),
            None => None,
        }
    }

    /// The bucket the index holds at `slot`.
    pub closed spec fn bucket_view(self, slot: int) -> Option<Seq<Sample>> {
        bucket_in(self.groups@, slot)
    }

    /// Build the index: group every sample under the canonical key of its
    /// slot, buckets in insertion order, and remember the instant of the
    /// last input sample as the latest-sample marker.
    pub fn new(samples: Vec<Sample>) -> (v: View)
        requires
            forall|k: int| 0 <= k < samples@.len() ==> samples@[k].at@ > i64::MIN + 900,
        ensures
            v.wf(),
            v.latest_spec() == if samples@.len() == 0 {
                None::<int>
            } else {
                Some(samples@.last().at@)
            },
            forall|slot: int| #[trigger] v.bucket_view(slot) == bucket_model(samples@, slot),
    {
        let n = samples.len();
        let latest = if n == 0 {
            None
        } else {
            Some(samples[n - 1].at)
        };
        let mut groups: Vec<SlotBucket> = Vec::new();
        let mut i: usize = 0;
        while i < n
            invariant
                n == samples@.len(),
                i <= n,
                forall|k: int| 0 <= k < n ==> samples@[k].at@ > i64::MIN + 900,
                forall|a: int, b: int|
                    0 <= a < b < groups@.len() ==> groups@[a].slot@ != groups@[b].slot@,
                forall|a: int| 0 <= a < groups@.len() ==> (#[trigger] groups@[a]).samples@.len() > 0,
                forall|a: int, k: int|
                    0 <= a < groups@.len() && 0 <= k < groups@[a].samples@.len() ==> slot_of(
                        #[trigger] groups@[a].samples@[k].at@,
                    ) == groups@[a].slot@,
                forall|a: int|
                    0 <= a < groups@.len() ==> slot_of((#[trigger] groups@[a]).slot@)
                        == groups@[a].slot@,
                forall|slot: int| #[trigger]
                    bucket_in(groups@, slot) == bucket_model(samples@.take(i as int), slot),
            decreases n - i,
        {
            let s = samples[i];
            let key = s.at.floor_to_slot();
            let ghost pre = groups@;
            let ghost prefix = samples@.take(i as int);
            proof {
                crate::time::lemma_slot_idempotent(s.at@);
                assert(samples@.take(i as int + 1) =~= prefix.push(s));
            }
            match find_group(&groups, key.secs) {
                Some(gi) => {
                    let mut b = groups.remove(gi);
                    b.samples.push(s);
                    groups.insert(gi, b);
                    proof {
                        let bb = groups@[gi as int];
                        assert(groups@ =~= pre.update(gi as int, bb));
                        assert(bb.slot == pre[gi as int].slot);
                        assert(bb.samples@ == pre[gi as int].samples@.push(s));
                        assert forall|slot: int| #[trigger]
                            bucket_in(groups@, slot) == bucket_model(prefix.push(s), slot) by {
                            lemma_bucket_in_update(pre, gi as int, bb, slot);
                            lemma_slot_filter_push(prefix, s, slot);
                            assert(bucket_in(pre, slot) == bucket_model(prefix, slot));
                            if slot == key@ {
                                assert(bucket_in(pre, slot) == Some(pre[gi as int].samples@));
                                assert(slot_filter(prefix, slot) == pre[gi as int].samples@);
                                assert(slot_filter(prefix.push(s), slot) == bb.samples@);
                            }
                        }
                    }
                },
                None => {
                    let mut b: Vec<Sample> = Vec::new();
                    b.push(s);
                    groups.push(SlotBucket { slot: key, samples: b });
                    proof {
                        let g = groups@.last();
                        assert(groups@ =~= pre.push(g));
                        assert(g.slot@ == key@ && g.samples@ == Seq::<Sample>::empty().push(s));
                        assert forall|a: int| 0 <= a < pre.len() implies pre[a].slot@ != key@ by {
                            if pre[a].slot@ == key@ {
                                lemma_bucket_in_member(pre, a);
                            }
                        }
                        assert forall|slot: int| #[trigger]
                            bucket_in(groups@, slot) == bucket_model(prefix.push(s), slot) by {
                            lemma_bucket_in_push(pre, g, slot);
                            lemma_slot_filter_push(prefix, s, slot);
                            assert(bucket_in(pre, slot) == bucket_model(prefix, slot));
                            if slot == key@ {
                                assert(slot_filter(prefix, slot).len() == 0);
                                assert(slot_filter(prefix.push(s), slot) =~= g.samples@);
                            }
                        }
                    }
                },
            }
            i += 1;
        }
        proof {
            assert(samples@.take(n as int) =~= samples@);
        }
        View { latest, groups }
    }

    /// The four-way, order-sensitive slot decision. A measured value wins
    /// over the hour tick, which wins over the elapsed blank, which wins
    /// over the future placeholder.
    pub open spec fn glyph_at_spec(self, slot: int) -> Glyph {
        if self.bucket_view(slot) is Some {
            Glyph::Value(self.bucket_view(slot)->Some_0.last().value)
        } else if is_hour_tick(slot) {
            Glyph::HourTick
        } else if self.latest_spec() is Some && slot < self.latest_spec()->Some_0 {
            Glyph::Blank
        } else {
            Glyph::WaitPlaceholder
        }
    }

    /// The bucket at a slot key, or nothing when no sample fell there.
    pub fn bucket_at(&self, slot: Timestamp) -> (r: Option<&Vec<Sample>>)
        ensures
            match r {
                Some(b) => self.bucket_view(slot@) == Some(b@),
                None => self.bucket_view(slot@) is None,
            },
    {
        match find_group(&self.groups, slot.secs) {
            Some(gi) => Some(&self.groups[gi].samples),
            None => None,
        }
    }

    /// The latest-sample marker, if any sample was supplied at all.
    pub fn latest(&self) -> (r: Option<Timestamp>)
        ensures
            match r {
                Some(t) => self.latest_spec() == Some(t@),
                None => self.latest_spec() is None,
            },
    {
        self.latest
    }

    /// Decide the glyph of one slot.
    pub fn glyph_at(&self, slot: Timestamp) -> (g: Glyph)
        requires
            self.wf(),
        ensures
            g == self.glyph_at_spec(slot@),
    {
        match find_group(&self.groups, slot.secs) {
            Some(gi) => {
                let b = &self.groups[gi];
                Glyph::Value(b.samples[b.samples.len() - 1].value)
            },
            None => {
                if slot.even_full_hour() {
                    Glyph::HourTick
                } else {
                    match self.latest {
                        Some(l) => {
                            if slot.secs < l.secs {
                                Glyph::Blank
                            } else {
                                Glyph::WaitPlaceholder
                            }
                        },
                        None => Glyph::WaitPlaceholder,
                    }
                }
            },
        }
    }

    /// The rolling recent window: the 32 slots ending at the slot of `to`,
    /// oldest first, `to`'s own slot rightmost.
    pub open spec fn render_recent_spec(self, to: int) -> Seq<char> {
        Seq::new(32, |j: int| glyph_char(self.glyph_at_spec(slot_of(to) - 900 * (31 - j))))
    }

    /// The calendar-day window: 95 slots walked forward from the day's
    /// 02:00 anchor, oldest first — one slot short of the full day, an
    /// acknowledged quirk kept for compatibility.
    pub open spec fn render_day_spec(self, day: int) -> Seq<char> {
        Seq::new(95, |j: int| glyph_char(self.glyph_at_spec(day_start_of(day) + 900 * j)))
    }

    /// Render the recent window ending at `to` as a 32-character strip.
    pub fn render_recent(&self, to: Timestamp) -> (r: String)
        requires
            self.wf(),
            to@ > i64::MIN + 30600,
        ensures
            r@ == self.render_recent_spec(to@),
            r@.len() == 32,
    {
        let base = to.floor_to_slot();
        let mut out = String::new();
        let mut j: usize = 0;
        while j < 32
            invariant
                self.wf(),
                base@ == slot_of(to@),
                to@ > i64::MIN + 30600,
                j <= 32,
                out@ == self.render_recent_spec(to@).take(j as int),
            decreases 32 - j,
        {
            let off: i64 = 900 * (31 - j as i64);
            let slot = Timestamp { secs: base.secs - off };
            let g = self.glyph_at(slot);
            out.append(glyph_str(g));
            proof {
                let want = self.render_recent_spec(to@);
                assert(want[j as int] == glyph_char(self.glyph_at_spec(slot@)));
                assert(out@ =~= want.take(j as int + 1));
            }
            j += 1;
        }
        proof {
            assert(self.render_recent_spec(to@).take(32) =~= self.render_recent_spec(to@));
        }
        out
    }

    /// Render the calendar day containing `day` as a 95-character strip.
    pub fn render_day(&self, day: Timestamp) -> (r: String)
        requires
            self.wf(),
            day@ > i64::MIN + 86400,
            day@ < i64::MAX - 92700,
        ensures
            r@ == self.render_day_spec(day@),
            r@.len() == 95,
    {
        let start = day.start_of_day();
        let mut out = String::new();
        let mut j: usize = 0;
        while j < 95
            invariant
                self.wf(),
                start@ == day_start_of(day@),
                day@ > i64::MIN + 86400,
                day@ < i64::MAX - 92700,
                j <= 95,
                out@ == self.render_day_spec(day@).take(j as int),
            decreases 95 - j,
        {
            let off: i64 = 900 * (j as i64);
            let slot = Timestamp { secs: start.secs + off };
            let g = self.glyph_at(slot);
            out.append(glyph_str(g));
            proof {
                let want = self.render_day_spec(day@);
                assert(want[j as int] == glyph_char(self.glyph_at_spec(slot@)));
                assert(out@ =~= want.take(j as int + 1));
            }
            j += 1;
        }
        proof {
            assert(self.render_day_spec(day@).take(95) =~= self.render_day_spec(day@));
        }
        out
    }
}

/// Among several samples that collide in one slot, only the last-inserted
/// one is visible: the slot of a freshly appended sample renders that
/// sample's value, whatever fell there before.
pub proof fn lemma_last_inserted_wins(v: View, samples: Seq<Sample>, x: Sample)
    requires
        v.bucket_view(slot_of(x.at@)) == bucket_model(samples.push(x), slot_of(x.at@)),
    ensures
        v.glyph_at_spec(slot_of(x.at@)) == Glyph::Value(x.value),
{
    lemma_slot_filter_push(samples, x, slot_of(x.at@));
}

/// The recent window is always exactly 32 characters, however many or few
/// samples the index holds.
pub proof fn lemma_render_recent_len(v: View, to: int)
    ensures
        v.render_recent_spec(to).len() == 32,
{
}

/// The calendar-day window is always exactly 95 characters, however many
/// or few samples the index holds.
pub proof fn lemma_render_day_len(v: View, day: int)
    ensures
        v.render_day_spec(day).len() == 95,
{
}

/// Rendering is deterministic: two recent-window renders from one index
/// and one as-of instant are character-for-character the same.
pub proof fn lemma_render_recent_deterministic(v: View, to: int, r1: Seq<char>, r2: Seq<char>)
    requires
        r1 == v.render_recent_spec(to),
        r2 == v.render_recent_spec(to),
    ensures
        r1 == r2,
{
}

/// Rendering is deterministic: two calendar-day renders from one index
/// and one day are character-for-character the same.
pub proof fn lemma_render_day_deterministic(v: View, day: int, r1: Seq<char>, r2: Seq<char>)
    requires
        r1 == v.render_day_spec(day),
        r2 == v.render_day_spec(day),
    ensures
        r1 == r2,
{
}

/// First index of `groups` whose bucket carries `slot`, scanning forward.
fn find_group(groups: &Vec<SlotBucket>, slot: i64) -> (r: Option<usize>)
    ensures
        match r {
            Some(i) => i < groups@.len() && groups@[i as int].slot@ == slot as int && bucket_in(
                groups@,
                slot as int,
            ) == Some(groups@[i as int].samples@),
            None => bucket_in(groups@, slot as int) is None,
        },
{
    let n = groups.len();
    let mut j: usize = 0;
    while j < n
        invariant
            n == groups@.len(),
            j <= n,
            forall|k: int| 0 <= k < j ==> groups@[k].slot@ != slot as int,
        decreases n - j,
    {
        if groups[j].slot.secs == slot {
            proof {
                lemma_bucket_in_at(groups@, slot as int, j as int);
            }
            return Some(j);
        }
        j += 1;
    }
    proof {
        lemma_bucket_in_none(groups@, slot as int);
    }
    None
}

} // verus!
