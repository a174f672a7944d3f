//! The decisions of one download lane.
//!
//! A lane takes entries from its queue one at a time. For each entry it
//! decides where the image comes from and which file it is stored in; when
//! the queue reports that no more entries will come, the lane is done. The
//! caller performs the downloads and writes: a failed download or write
//! skips that entry and the lane goes on with the next one.
use crate::manifest::ManifestData;
use crate::naming::{download_file_name, file_name, lemma_file_name_injective};
use vstd::prelude::*;

verus! {

/// The state of a lane: its index, the number the next entry's file gets,
/// and whether its queue has been closed.
pub struct Lane {
    pub index: usize,
    pub next_seq: usize,
    pub done: bool,
}

/// What the queue hands a lane.
pub enum LaneEvent {
    /// The next entry.
    Item(ManifestData),
    /// All senders are gone and nothing is buffered.
    Closed,
}

/// What the lane asks its caller to do.
pub enum LaneAction {
    /// Fetch the image at `url` and store its bytes in a new file `file_name`.
    Download { url: String, file_name: String },
    /// The entry names no image: nothing to do for it.
    Skip,
    /// The lane is done.
    Finish,
}

/// The mathematical value of a `LaneAction`.
pub enum ActionView {
    Download { url: Seq<char>, file_name: Seq<char> },
    Skip,
    Finish,
}

impl View for LaneAction {
    type V = ActionView;

    open spec fn view(&self) -> ActionView {
        match self {
            LaneAction::Download { url, file_name } => ActionView::Download {
                url: url@,
                file_name: file_name@,
            },
            LaneAction::Skip => ActionView::Skip,
            LaneAction::Finish => ActionView::Finish,
        }
    }
}

/// A lane that has taken no entry yet.
pub open spec fn fresh_lane(index: usize) -> Lane {
    Lane { index, next_seq: 0, done: false }
}

/// What lane `lane` does with the entry numbered `seq` it takes.
pub open spec fn item_action(lane: nat, seq: nat, entry: ManifestData) -> ActionView {
    match entry.spec_wallpaper_url() {
        Some(url) => ActionView::Download { url, file_name: file_name(lane, seq) },
        None => ActionView::Skip,
    }
}

/// One step of a lane: its next state and the action it asks for.
pub open spec fn step_spec(s: Lane, event: LaneEvent) -> (Lane, ActionView) {
    if s.done {
        (s, ActionView::Finish)
    } else {
        match event {
            LaneEvent::Item(entry) => (
                Lane { next_seq: (s.next_seq + 1) as usize, ..s },
                item_action(s.index as nat, s.next_seq as nat, entry),
            ),
            LaneEvent::Closed => (Lane { done: true, ..s }, ActionView::Finish),
        }
    }
}

/// The state reached and the actions asked for over a sequence of events.
pub open spec fn run_lane(s: Lane, events: Seq<LaneEvent>) -> (Lane, Seq<ActionView>)
    decreases events.len(),
{
    if events.len() == 0 {
        (s, Seq::empty())
    } else {
        let (next, action) = step_spec(s, events[0]);
        let (last, actions) = run_lane(next, events.drop_first());
        (last, seq![action] + actions)
    }
}

/// The events a lane sees when its queue holds `items` and is then closed.
pub open spec fn drain_events(items: Seq<ManifestData>) -> Seq<LaneEvent> {
    items.map_values(|d: ManifestData| LaneEvent::Item(d)).push(LaneEvent::Closed)
}

impl Lane {
    pub fn new(index: usize) -> (r: Lane)
        ensures
            r == fresh_lane(index),
    {
        Lane { index, next_seq: 0, done: false }
    }

    /// Takes one event from the queue and says what to do about it.
    pub fn step(&mut self, event: LaneEvent) -> (action: LaneAction)
        requires
            !old(self).done && event is Item ==> old(self).next_seq < usize::MAX,
        ensures
            (*final(self), action@) == step_spec(*old(self), event),
    {
        if self.done {
            return LaneAction::Finish;
        }
        match event {
            LaneEvent::Item(entry) => {
                let seq = self.next_seq;
                self.next_seq = seq + 1;
                match entry.wallpaper_url() {
                    Some(url) => LaneAction::Download {
                        url: String::from_str(url),
                        file_name: download_file_name(self.index, seq),
                    },
                    None => LaneAction::Skip,
                }
            },
            LaneEvent::Closed => {
                self.done = true;
                LaneAction::Finish
            },
        }
    }
}

/// A lane that is handed `items` and then sees its queue closed is done after
/// one step per item and one more: it asks for one action per item, the
/// item numbered `k` going to file `next_seq + k`, and then finishes.
pub proof fn lemma_drain_terminates(s: Lane, items: Seq<ManifestData>)
    requires
        !s.done,
        s.next_seq + items.len() <= usize::MAX,
    ensures
        run_lane(s, drain_events(items)).0.done,
        run_lane(s, drain_events(items)).0.index == s.index,
        run_lane(s, drain_events(items)).0.next_seq == s.next_seq + items.len(),
        run_lane(s, drain_events(items)).1.len() == items.len() + 1,
        forall|k: int|
            0 <= k < items.len() ==> #[trigger] run_lane(s, drain_events(items)).1[k]
                == item_action(s.index as nat, (s.next_seq + k) as nat, items[k]),
        run_lane(s, drain_events(items)).1[items.len() as int] == ActionView::Finish,
    decreases items.len(),
{
    let events = drain_events(items);
    if items.len() == 0 {
        assert(events =~= seq![LaneEvent::Closed]);
        assert(events.drop_first() =~= Seq::<LaneEvent>::empty());
        let closed = step_spec(s, events[0]).0;
        assert(run_lane(closed, events.drop_first()) == (closed, Seq::<ActionView>::empty()));
        assert(run_lane(s, events).0 == closed);
        assert(run_lane(s, events).1 =~= seq![ActionView::Finish]);
    } else {
        let rest = items.drop_first();
        assert(events[0] == LaneEvent::Item(items[0]));
        assert(events.drop_first() =~= drain_events(rest));
        let next = step_spec(s, events[0]).0;
        lemma_drain_terminates(next, rest);
        let acts = run_lane(s, events).1;
        let tail = run_lane(next, drain_events(rest)).1;
        assert(run_lane(s, events).0 == run_lane(next, drain_events(rest)).0);
        assert(acts == seq![item_action(s.index as nat, s.next_seq as nat, items[0])] + tail);
        assert forall|k: int| 0 <= k < items.len() implies #[trigger] acts[k] == item_action(
            s.index as nat,
            (s.next_seq + k) as nat,
            items[k],
        ) by {
            if k > 0 {
                assert(acts[k] == tail[k - 1]);
                assert(rest[k - 1] == items[k]);
            }
        }
    }
}

/// Across all lanes of a run, no two downloads share a file: the entry
/// numbered `a` of lane `l1` and the entry numbered `b` of lane `l2`, when
/// both are downloaded and are not the same entry of the same lane, are
/// stored under different names.
pub proof fn lemma_download_names_unique(
    l1: usize,
    items1: Seq<ManifestData>,
    a: int,
    l2: usize,
    items2: Seq<ManifestData>,
    b: int,
)
    requires
        items1.len() <= usize::MAX,
        items2.len() <= usize::MAX,
        0 <= a < items1.len(),
        0 <= b < items2.len(),
        l1 != l2 || a != b,
        run_lane(fresh_lane(l1), drain_events(items1)).1[a] is Download,
        run_lane(fresh_lane(l2), drain_events(items2)).1[b] is Download,
    ensures
        run_lane(fresh_lane(l1), drain_events(items1)).1[a]->file_name != run_lane(
            fresh_lane(l2),
            drain_events(items2),
        ).1[b]->file_name,
{
    lemma_drain_terminates(fresh_lane(l1), items1);
    lemma_drain_terminates(fresh_lane(l2), items2);
    let n1 = run_lane(fresh_lane(l1), drain_events(items1)).1[a]->file_name;
    let n2 = run_lane(fresh_lane(l2), drain_events(items2)).1[b]->file_name;
    assert(n1 == file_name(l1 as nat, a as nat));
    assert(n2 == file_name(l2 as nat, b as nat));
    if n1 == n2 {
        lemma_file_name_injective(l1 as nat, a as nat, l2 as nat, b as nat);
    }
}

} // verus!
