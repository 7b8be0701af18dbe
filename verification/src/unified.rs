//! The unified sequence: every matching path the enumeration found, in
//! listing order, followed by every matching path the live watch yields, in
//! arrival order, as one pull-based sequence. The caller registers the
//! kernel subscription first, then lists the directory, builds this state
//! machine from the listing, drains the existing half, and from then on
//! feeds it one pull of the event feed at a time.
//!
//! A ghost history records every path handed out, so the ordering of the
//! two halves is an invariant of the machine, not a convention of the
//! caller.

use vstd::prelude::*;
use crate::selector::Selector;
use crate::enumerate::{EntryInfo, enumerate_matches, enum_outputs, entries_view, paths_view};
use crate::watch::{WatchInput, WatchInputModel, event_yields, watch_outputs, has_decode_failure, inputs_view};

verus! {

/// The composition point of the two producers. `pending` holds the
/// enumeration's output; `next_idx` how much of it was already handed out;
/// `live` whether the watcher half still produces (a decode failure clears
/// it for good); `hist` the ghost record of every path handed out so far.
pub struct UnifiedSeq {
    pub sel: Selector,
    pub dir: Vec<u8>,
    pub pending: Vec<Vec<u8>>,
    pub next_idx: usize,
    pub live: bool,
    pub hist: Ghost<Seq<Seq<u8>>>,
}

impl UnifiedSeq {
    /// The selector's extension.
    pub open spec fn ext(self) -> Seq<u8> {
        self.sel@
    }

    /// The watched directory.
    pub open spec fn dir_spec(self) -> Seq<u8> {
        self.dir@
    }

    /// The enumeration half: every path the listing contributed.
    pub open spec fn existing(self) -> Seq<Seq<u8>> {
        paths_view(self.pending@)
    }

    /// Every path handed out so far, in order.
    pub open spec fn emitted(self) -> Seq<Seq<u8>> {
        self.hist@
    }

    /// The enumeration half has been handed out completely.
    pub open spec fn drained(self) -> bool {
        self.next_idx == self.pending.len()
    }

    /// The machine's invariant: while the enumeration half is being handed
    /// out, the history is exactly its prefix so far (and the watcher half
    /// has contributed nothing); afterwards, the history extends the whole
    /// enumeration half, so watcher output only ever stands behind it.
    pub open spec fn wf(self) -> bool {
        &&& self.next_idx <= self.pending.len()
        &&& !self.drained() ==> self.live && self.hist@ == self.existing().take(
            self.next_idx as int,
        )
        &&& self.drained() ==> self.existing().is_prefix_of(self.hist@)
    }

    /// Builds the unified sequence from the directory listing. The caller
    /// must have registered the kernel subscription before taking the
    /// listing, so that no file creation falls between the two.
    pub fn new(sel: Selector, dir: Vec<u8>, entries: Vec<EntryInfo>) -> (s: UnifiedSeq)
        ensures
            s.wf(),
            s.ext() == sel@,
            s.dir_spec() == dir@,
            s.existing() == enum_outputs(sel@, dir@, entries_view(entries@)),
            s.emitted() == Seq::<Seq<u8>>::empty(),
            s.live,
            s.next_idx == 0,
    {
        let pending = enumerate_matches(&sel, &dir, &entries);
        let s = UnifiedSeq {
            sel,
            dir,
            pending,
            next_idx: 0,
            live: true,
            hist: Ghost(Seq::empty()),
        };
        proof {
            if !s.drained() {
                assert(s.hist@ =~= s.existing().take(0));
            } else {
                assert(s.existing().len() == 0);
                assert(s.existing().is_prefix_of(s.hist@));
            }
        }
        s
    }

    /// Whether the enumeration half has been handed out completely.
    pub fn is_drained(&self) -> (b: bool)
        ensures
            b == self.drained(),
    {
        self.next_idx == self.pending.len()
    }

    /// Hands out the next path of the enumeration half, or nothing once it
    /// is exhausted. The live half never contributes here.
    pub fn next_existing(&mut self) -> (r: Option<Vec<u8>>)
        requires
            old(self).wf(),
        ensures
            final(self).wf(),
            final(self).ext() == old(self).ext(),
            final(self).dir_spec() == old(self).dir_spec(),
            final(self).existing() == old(self).existing(),
            final(self).live == old(self).live,
            match r {
                Some(p) => {
                    &&& !old(self).drained()
                    &&& p@ == old(self).existing()[old(self).next_idx as int]
                    &&& final(self).emitted() == old(self).emitted().push(p@)
                    &&& final(self).next_idx == old(self).next_idx + 1
                },
                None => {
                    &&& old(self).drained()
                    &&& *final(self) == *old(self)
                },
            },
    {
        if self.next_idx < self.pending.len() {
            let p = copy_path(&self.pending[self.next_idx]);
            self.next_idx = self.next_idx + 1;
            proof {
                assert(p@ == self.existing()[self.next_idx - 1]);
            }
            self.hist = Ghost(self.hist@.push(p@));
            proof {
                let ex = self.existing();
                let k = self.next_idx as int;
                assert(ex.take(k - 1).push(ex[k - 1]) =~= ex.take(k));
                if self.drained() {
                    assert(ex.take(k) =~= ex);
                    assert(ex.is_prefix_of(self.hist@)) by {
                        assert(self.hist@.subrange(0, ex.len() as int) =~= ex);
                    }
                }
            }
            Some(p)
        } else {
            None
        }
    }

    /// Hands out the whole remainder of the enumeration half at once.
    pub fn drain_existing(&mut self) -> (r: Vec<Vec<u8>>)
        requires
            old(self).wf(),
        ensures
            final(self).wf(),
            final(self).drained(),
            final(self).ext() == old(self).ext(),
            final(self).dir_spec() == old(self).dir_spec(),
            final(self).existing() == old(self).existing(),
            final(self).live == old(self).live,
            paths_view(r@) == old(self).existing().skip(old(self).next_idx as int),
            final(self).emitted() == old(self).emitted() + paths_view(r@),
    {
        let mut out: Vec<Vec<u8>> = Vec::new();
        proof {
            assert(paths_view(out@) =~= old(self).existing().subrange(
                old(self).next_idx as int,
                old(self).next_idx as int,
            ));
            assert(self.hist@ =~= old(self).hist@ + paths_view(out@));
        }
        while self.next_idx < self.pending.len()
            invariant
                self.wf(),
                self.ext() == old(self).ext(),
                self.dir_spec() == old(self).dir_spec(),
                self.existing() == old(self).existing(),
                self.live == old(self).live,
                old(self).next_idx <= self.next_idx <= self.pending.len(),
                paths_view(out@) == self.existing().subrange(
                    old(self).next_idx as int,
                    self.next_idx as int,
                ),
                self.hist@ == old(self).hist@ + paths_view(out@),
            decreases self.pending.len() - self.next_idx,
        {
            let ghost pre_out = out@;
            let ghost pre_idx = self.next_idx as int;
            let ghost pre_len = self.pending@.len();
            let p = match self.next_existing() {
                Some(p) => p,
                None => {
                    proof {
                        assert(false);
                    }
                    Vec::new()
                },
            };
            out.push(p);
            proof {
                let ex = self.existing();
                assert(self.pending@.len() == ex.len());
                assert(pre_len == ex.len());
                assert(paths_view(out@) =~= paths_view(pre_out).push(out@.last()@));
                assert(ex.subrange(old(self).next_idx as int, pre_idx).push(ex[pre_idx])
                    =~= ex.subrange(old(self).next_idx as int, pre_idx + 1));
            }
        }
        proof {
            assert(self.existing().subrange(
                old(self).next_idx as int,
                self.existing().len() as int,
            ) =~= old(self).existing().skip(old(self).next_idx as int));
        }
        out
    }

    /// Feeds one pull of the event feed to the watcher half. May only be
    /// called once the enumeration half is drained, which keeps the two
    /// halves from interleaving. Once a decode failure has arrived, the
    /// machine hands out nothing further, whatever arrives.
    pub fn on_event(&mut self, input: &WatchInput) -> (r: Option<Vec<u8>>)
        requires
            old(self).wf(),
            old(self).drained(),
        ensures
            final(self).wf(),
            final(self).drained(),
            final(self).ext() == old(self).ext(),
            final(self).dir_spec() == old(self).dir_spec(),
            final(self).existing() == old(self).existing(),
            !old(self).live ==> r is None && *final(self) == *old(self),
            old(self).live ==> match input@ {
                WatchInputModel::DecodeFailure => {
                    &&& r is None
                    &&& !final(self).live
                    &&& final(self).emitted() == old(self).emitted()
                },
                WatchInputModel::Event(ev) => {
                    &&& final(self).live
                    &&& match r {
                        Some(p) => {
                            &&& event_yields(old(self).ext(), old(self).dir_spec(), ev)
                                == Some(p@)
                            &&& final(self).emitted() == old(self).emitted().push(p@)
                        },
                        None => {
                            &&& event_yields(old(self).ext(), old(self).dir_spec(), ev) is None
                            &&& final(self).emitted() == old(self).emitted()
                        },
                    }
                },
            },
    {
        if !self.live {
            return None;
        }
        match input {
            WatchInput::DecodeFailure => {
                self.live = false;
                None
            },
            WatchInput::Event(ev) => {
                match ev.candidate(&self.sel, &self.dir) {
                    Some(p) => {
                        self.hist = Ghost(self.hist@.push(p@));
                        proof {
                            let ex = self.existing();
                            assert(ex.is_prefix_of(self.hist@)) by {
                                assert(self.hist@.subrange(0, ex.len() as int) =~= ex);
                            }
                        }
                        Some(p)
                    },
                    None => None,
                }
            },
        }
    }

    /// Feeds a whole run of pulls to the watcher half, returning every path
    /// they yield, in arrival order. The run's output is exactly the
    /// watcher's output on those pulls, decode-failure cut-off included.
    pub fn pump_events(&mut self, inputs: Vec<WatchInput>) -> (r: Vec<Vec<u8>>)
        requires
            old(self).wf(),
            old(self).drained(),
        ensures
            final(self).wf(),
            final(self).drained(),
            final(self).ext() == old(self).ext(),
            final(self).dir_spec() == old(self).dir_spec(),
            final(self).existing() == old(self).existing(),
            !old(self).live ==> r@.len() == 0 && *final(self) == *old(self),
            old(self).live ==> {
                &&& paths_view(r@) == watch_outputs(
                    old(self).ext(),
                    old(self).dir_spec(),
                    inputs_view(inputs@),
                )
                &&& final(self).emitted() == old(self).emitted() + paths_view(r@)
                &&& (final(self).live <==> !has_decode_failure(inputs_view(inputs@)))
            },
    {
        let mut out: Vec<Vec<u8>> = Vec::new();
        if !self.live {
            return out;
        }
        let mut k: usize = 0;
        proof {
            assert(inputs_view(inputs@.take(0)) =~= Seq::<WatchInputModel>::empty());
            assert(paths_view(out@) =~= Seq::<Seq<u8>>::empty());
            assert(self.hist@ =~= old(self).hist@ + paths_view(out@));
        }
        while k < inputs.len()
            invariant
                0 <= k <= inputs.len(),
                self.wf(),
                self.drained(),
                self.ext() == old(self).ext(),
                self.dir_spec() == old(self).dir_spec(),
                self.existing() == old(self).existing(),
                old(self).live,
                paths_view(out@) == watch_outputs(
                    old(self).ext(),
                    old(self).dir_spec(),
                    inputs_view(inputs@.take(k as int)),
                ),
                self.hist@ == old(self).hist@ + paths_view(out@),
                self.live <==> !has_decode_failure(inputs_view(inputs@.take(k as int))),
            decreases inputs.len() - k,
        {
            let ghost pre = inputs_view(inputs@.take(k as int));
            let ghost cur = inputs_view(inputs@.take(k + 1));
            let ghost step = inputs@[k as int]@;
            proof {
                assert(cur =~= pre + seq![step]);
                crate::watch::lemma_watch_outputs_concat(
                    old(self).ext(),
                    old(self).dir_spec(),
                    pre,
                    seq![step],
                );
            }
            let ghost pre_out = out@;
            let r = self.on_event(&inputs[k]);
            match r {
                Some(p) => out.push(p),
                None => {},
            }
            proof {
                let ext = old(self).ext();
                let dirs = old(self).dir_spec();
                crate::watch::lemma_watch_outputs_single(ext, dirs, step);
                match step {
                    WatchInputModel::DecodeFailure => {
                        assert(seq![step][0] is DecodeFailure);
                        assert(has_decode_failure(seq![step]));
                        if !has_decode_failure(pre) {
                            assert(watch_outputs(ext, dirs, cur) == watch_outputs(ext, dirs, pre)
                                + watch_outputs(ext, dirs, seq![step]));
                            assert(watch_outputs(ext, dirs, pre) + Seq::<Seq<u8>>::empty()
                                =~= watch_outputs(ext, dirs, pre));
                        }
                        assert(has_decode_failure(cur)) by {
                            assert(cur[cur.len() - 1] is DecodeFailure);
                        }
                    },
                    WatchInputModel::Event(ev) => {
                        if !has_decode_failure(pre) {
                            assert(watch_outputs(ext, dirs, cur) == watch_outputs(ext, dirs, pre)
                                + watch_outputs(ext, dirs, seq![step]));
                            match event_yields(ext, dirs, ev) {
                                Some(p) => {
                                    assert(paths_view(out@) =~= paths_view(pre_out).push(
                                        out@.last()@,
                                    ));
                                    assert(watch_outputs(ext, dirs, pre).push(p) =~= watch_outputs(
                                        ext,
                                        dirs,
                                        pre,
                                    ) + seq![p]);
                                },
                                None => {
                                    assert(watch_outputs(ext, dirs, pre) + Seq::<Seq<u8>>::empty()
                                        =~= watch_outputs(ext, dirs, pre));
                                },
                            }
                        }
                        assert(has_decode_failure(cur) <==> has_decode_failure(pre)) by {
                            if has_decode_failure(pre) {
                                let i = choose|i: int|
                                    0 <= i < pre.len() && pre[i] is DecodeFailure;
                                assert(cur[i] is DecodeFailure);
                            }
                            if has_decode_failure(cur) {
                                let i = choose|i: int|
                                    0 <= i < cur.len() && cur[i] is DecodeFailure;
                                assert(i < pre.len());
                                assert(pre[i] is DecodeFailure);
                            }
                        }
                    },
                }
            }
            k = k + 1;
        }
        proof {
            assert(inputs@.take(inputs@.len() as int) =~= inputs@);
        }
        out
    }
}

/// The unified sequence over a finite prefix of the event feed, end to end:
/// every matching existing path, in listing order, then every path the live
/// events yield, in arrival order, with the decode-failure cut-off applied.
pub fn unified_run(
    sel: Selector,
    dir: Vec<u8>,
    entries: Vec<EntryInfo>,
    inputs: Vec<WatchInput>,
) -> (r: Vec<Vec<u8>>)
    ensures
        paths_view(r@) == enum_outputs(sel@, dir@, entries_view(entries@)) + watch_outputs(
            sel@,
            dir@,
            inputs_view(inputs@),
        ),
{
    let ghost ex = enum_outputs(sel@, dir@, entries_view(entries@));
    let mut s = UnifiedSeq::new(sel, dir, entries);
    let mut r = s.drain_existing();
    proof {
        assert(ex.skip(0) =~= ex);
    }
    let live = s.pump_events(inputs);
    let mut i: usize = 0;
    while i < live.len()
        invariant
            0 <= i <= live.len(),
            paths_view(r@) == ex + paths_view(live@.take(i as int)),
            paths_view(live@) == watch_outputs(s.ext(), s.dir_spec(), inputs_view(inputs@)),
            s.ext() == sel@,
            s.dir_spec() == dir@,
        decreases live.len() - i,
    {
        let p = copy_path(&live[i]);
        r.push(p);
        proof {
            assert(paths_view(r@) =~= paths_view(r@.drop_last()).push(r@.last()@));
            assert(paths_view(live@.take(i as int)).push(live@[i as int]@) =~= paths_view(
                live@.take(i + 1),
            ));
            assert((ex + paths_view(live@.take(i as int))).push(live@[i as int]@) =~= ex
                + paths_view(live@.take(i as int)).push(live@[i as int]@));
        }
        i = i + 1;
    }
    proof {
        assert(live@.take(live@.len() as int) =~= live@);
    }
    r
}

/// Copies one path's bytes.
fn copy_path(v: &Vec<u8>) -> (r: Vec<u8>)
    ensures
        r@ == v@,
{
    let mut out: Vec<u8> = Vec::new();
    let mut i: usize = 0;
    while i < v.len()
        invariant
            0 <= i <= v.len(),
            out@ == v@.take(i as int),
        decreases v.len() - i,
    {
        out.push(v[i]);
        i = i + 1;
    }
    proof {
        assert(v@.take(v@.len() as int) =~= v@);
    }
    out
}

/// Every path of the enumeration half precedes every path of the live half:
/// in any reachable state, the emitted history agrees with the enumeration
/// on its first positions, so a watcher-contributed path only ever stands
/// after the whole enumeration half.
pub proof fn lemma_enumeration_precedes_watch(s: UnifiedSeq)
    requires
        s.wf(),
    ensures
        forall|i: int|
            0 <= i < s.emitted().len() && i < s.existing().len() ==> #[trigger] s.emitted()[i]
                == s.existing()[i],
{
    if !s.drained() {
        assert forall|i: int|
            0 <= i < s.emitted().len() && i < s.existing().len() implies #[trigger] s.emitted()[i]
            == s.existing()[i] by {
            assert(s.emitted()[i] == s.existing().take(s.next_idx as int)[i]);
        }
    } else {
        assert forall|i: int|
            0 <= i < s.emitted().len() && i < s.existing().len() implies #[trigger] s.emitted()[i]
            == s.existing()[i] by {
            assert(s.existing()[i] == s.hist@.subrange(0, s.existing().len() as int)[i]);
        }
    }
}

} // verus!
