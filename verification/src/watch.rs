//! The live-event watcher: decodes kernel notifications for the watched
//! directory into candidate paths and yields those that match the selector,
//! in arrival order. The kernel subscription itself is an I/O collaborator;
//! what is decided here — and proved — is which notifications yield a path,
//! and that a decode failure ends the live half of the stream for good.

use vstd::prelude::*;
use crate::selector::{Selector, name_matches, join_path, join};

verus! {

/// The kind of a kernel notification: the creation of a plain file, or
/// anything else (creation of a directory, and every other event class).
pub enum EventKind {
    Create,
    Other,
}

/// One decoded kernel notification: its kind and, when the kernel supplied
/// one, the name of the affected entry relative to the watched directory.
pub struct RawEvent {
    pub kind: EventKind,
    pub name: Option<Vec<u8>>,
}

/// The mathematical image of one notification.
pub struct RawEventModel {
    pub kind: EventKind,
    pub name: Option<Seq<u8>>,
}

impl View for RawEvent {
    type V = RawEventModel;

    open spec fn view(&self) -> RawEventModel {
        RawEventModel {
            kind: self.kind,
            name: match self.name {
                Some(n) => Some(n@),
                None => None,
            },
        }
    }
}

/// What the event feed hands over on one pull: a decoded notification, or
/// the fact that a record could not be decoded.
pub enum WatchInput {
    Event(RawEvent),
    DecodeFailure,
}

/// The mathematical image of one pull from the event feed.
pub enum WatchInputModel {
    Event(RawEventModel),
    DecodeFailure,
}

impl View for WatchInput {
    type V = WatchInputModel;

    open spec fn view(&self) -> WatchInputModel {
        match self {
            WatchInput::Event(ev) => WatchInputModel::Event(ev@),
            WatchInput::DecodeFailure => WatchInputModel::DecodeFailure,
        }
    }
}

/// What one notification contributes to the output: the joined path when it
/// reports the creation of an entry whose name is present and matches the
/// selector, nothing otherwise.
pub open spec fn event_yields(ext: Seq<u8>, dir: Seq<u8>, ev: RawEventModel) -> Option<Seq<u8>> {
    match ev.name {
        Some(n) => if ev.kind is Create && name_matches(ext, n) {
            Some(join_path(dir, n))
        } else {
            None
        },
        None => None,
    }
}

/// The watcher's whole output on a sequence of pulls, in arrival order: each
/// event contributes what it yields, and the first decode failure ends the
/// output — nothing after it is yielded, and no error value appears.
pub open spec fn watch_outputs(ext: Seq<u8>, dir: Seq<u8>, inputs: Seq<WatchInputModel>) -> Seq<
    Seq<u8>,
>
    decreases inputs.len(),
{
    if inputs.len() == 0 {
        Seq::empty()
    } else {
        match inputs.first() {
            WatchInputModel::DecodeFailure => Seq::empty(),
            WatchInputModel::Event(ev) => {
                let rest = watch_outputs(ext, dir, inputs.drop_first());
                match event_yields(ext, dir, ev) {
                    Some(p) => seq![p] + rest,
                    None => rest,
                }
            },
        }
    }
}

/// The view of a vector of pulls.
pub open spec fn inputs_view(v: Seq<WatchInput>) -> Seq<WatchInputModel> {
    v.map_values(|i: WatchInput| i@)
}

/// Some pull of the sequence reported a decode failure.
pub open spec fn has_decode_failure(inputs: Seq<WatchInputModel>) -> bool {
    exists|i: int| 0 <= i < inputs.len() && inputs[i] is DecodeFailure
}

impl RawEvent {
    /// The watcher's per-event decision: the joined path when the event
    /// reports a plain-file creation with a present, matching name, and
    /// nothing for every other event. Only the name is inspected — the
    /// watcher never consults the file's type, which is why directory
    /// creations must already arrive as `Other`.
    pub fn candidate(&self, sel: &Selector, dir: &Vec<u8>) -> (r: Option<Vec<u8>>)
        ensures
            match r {
                Some(p) => event_yields(sel@, dir@, self@) == Some(p@),
                None => event_yields(sel@, dir@, self@) is None,
            },
    {
        match &self.name {
            Some(n) => {
                let is_create = match self.kind {
                    EventKind::Create => true,
                    EventKind::Other => false,
                };
                if is_create && sel.matches(n) {
                    Some(join(dir, n))
                } else {
                    None
                }
            },
            None => None,
        }
    }
}

/// Every path the watcher yields is the watched directory joined with a
/// present name that matches the selector, and comes from a plain-file
/// creation event.
pub proof fn lemma_event_output_matches(ext: Seq<u8>, dir: Seq<u8>, ev: RawEventModel, p: Seq<u8>)
    requires
        event_yields(ext, dir, ev) == Some(p),
    ensures
        ev.kind is Create,
        ev.name is Some,
        name_matches(ext, ev.name.unwrap()),
        p == join_path(dir, ev.name.unwrap()),
{
}

/// Splitting the pull sequence anywhere: when the first part holds no decode
/// failure the outputs concatenate, and when it holds one the second part
/// contributes nothing at all.
pub proof fn lemma_watch_outputs_concat(
    ext: Seq<u8>,
    dir: Seq<u8>,
    s: Seq<WatchInputModel>,
    t: Seq<WatchInputModel>,
)
    ensures
        !has_decode_failure(s) ==> watch_outputs(ext, dir, s + t) == watch_outputs(ext, dir, s)
            + watch_outputs(ext, dir, t),
        has_decode_failure(s) ==> watch_outputs(ext, dir, s + t) == watch_outputs(ext, dir, s),
    decreases s.len(),
{
    if s.len() == 0 {
        assert(!has_decode_failure(s));
        assert(s + t =~= t);
        assert(watch_outputs(ext, dir, s) + watch_outputs(ext, dir, t) =~= watch_outputs(
            ext,
            dir,
            t,
        ));
    } else {
        let st = s + t;
        assert(st.len() > 0);
        assert(st.first() == s.first());
        assert(st.drop_first() =~= s.drop_first() + t);
        lemma_watch_outputs_concat(ext, dir, s.drop_first(), t);
        match s.first() {
            WatchInputModel::DecodeFailure => {
                assert(s[0] is DecodeFailure);
                assert(has_decode_failure(s));
                assert(watch_outputs(ext, dir, st) =~= Seq::<Seq<u8>>::empty());
                assert(watch_outputs(ext, dir, s) =~= Seq::<Seq<u8>>::empty());
            },
            WatchInputModel::Event(ev) => {
                assert(has_decode_failure(s.drop_first()) <==> has_decode_failure(s)) by {
                    if has_decode_failure(s.drop_first()) {
                        let i = choose|i: int|
                            0 <= i < s.drop_first().len() && s.drop_first()[i] is DecodeFailure;
                        assert(s[i + 1] is DecodeFailure);
                    }
                    if has_decode_failure(s) {
                        let i = choose|i: int| 0 <= i < s.len() && s[i] is DecodeFailure;
                        assert(i != 0);
                        assert(s.drop_first()[i - 1] is DecodeFailure);
                    }
                }
                if !has_decode_failure(s) {
                    match event_yields(ext, dir, ev) {
                        Some(p) => {
                            assert(seq![p] + (watch_outputs(ext, dir, s.drop_first())
                                + watch_outputs(ext, dir, t)) =~= (seq![p] + watch_outputs(
                                ext,
                                dir,
                                s.drop_first(),
                            )) + watch_outputs(ext, dir, t));
                        },
                        None => {},
                    }
                }
            },
        }
    }
}

/// The watcher's output on a single pull: nothing for a decode failure, and
/// what the event yields otherwise.
pub proof fn lemma_watch_outputs_single(ext: Seq<u8>, dir: Seq<u8>, x: WatchInputModel)
    ensures
        watch_outputs(ext, dir, seq![x]) == match x {
            WatchInputModel::DecodeFailure => Seq::<Seq<u8>>::empty(),
            WatchInputModel::Event(ev) => match event_yields(ext, dir, ev) {
                Some(p) => seq![p],
                None => Seq::<Seq<u8>>::empty(),
            },
        },
{
    let s = seq![x];
    assert(s.len() == 1);
    assert(s.first() == x);
    assert(s.drop_first() =~= Seq::<WatchInputModel>::empty());
    assert(watch_outputs(ext, dir, s.drop_first()) =~= Seq::<Seq<u8>>::empty());
    match x {
        WatchInputModel::DecodeFailure => {},
        WatchInputModel::Event(ev) => {
            match event_yields(ext, dir, ev) {
                Some(p) => {
                    assert(seq![p] + Seq::<Seq<u8>>::empty() =~= seq![p]);
                },
                None => {},
            }
        },
    }
}

/// A decode failure ends the live stream: whatever arrives after the first
/// failure, the output is what the pulls before it yielded, and nothing
/// further — no crash, and no error element.
pub proof fn lemma_decode_failure_ends_stream(
    ext: Seq<u8>,
    dir: Seq<u8>,
    before: Seq<WatchInputModel>,
    after: Seq<WatchInputModel>,
)
    requires
        !has_decode_failure(before),
    ensures
        watch_outputs(ext, dir, before + seq![WatchInputModel::DecodeFailure] + after)
            == watch_outputs(ext, dir, before),
{
    let stop = seq![WatchInputModel::DecodeFailure];
    assert(stop[0] is DecodeFailure);
    assert(has_decode_failure(stop));
    lemma_watch_outputs_concat(ext, dir, stop, after);
    assert(watch_outputs(ext, dir, stop + after) =~= Seq::<Seq<u8>>::empty());
    lemma_watch_outputs_concat(ext, dir, before, stop + after);
    assert(before + seq![WatchInputModel::DecodeFailure] + after =~= before + (stop + after));
    assert(watch_outputs(ext, dir, before) + Seq::<Seq<u8>>::empty() =~= watch_outputs(
        ext,
        dir,
        before,
    ));
}

} // verus!
