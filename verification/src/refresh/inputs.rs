//! The input devices that are watched, and what their events ask for.

use crate::readiness::{same_token, Readiness};
use crate::text::{same_text, texts};
use coreshift_core::reactor::Token;
use vstd::prelude::*;
use vstd::set_lib::{lemma_int_range, lemma_len_subset, lemma_subset_equality, set_int_range};

verus! {

/// The bytes of one input event record.
pub const EVENT_BYTES: usize = 24;

/// What one read of an input device gave.
#[derive(Debug)]
pub enum Record {
    /// This many bytes, the record among them.
    Bytes(Vec<u8>),
    /// Nothing more for now.
    Drained,
    /// An error.
    Failed,
}

/// A record reports the end of a group of changes: its type and its code, the two numbers after
/// the two words of its time, are both zero.
pub open spec fn is_report(record: Seq<u8>) -> bool {
    record[16] == 0 && record[17] == 0 && record[18] == 0 && record[19] == 0
}

/// Reading goes on only after a whole record.
pub open spec fn whole(record: Record) -> bool {
    record matches Record::Bytes(bytes) && bytes@.len() == EVENT_BYTES
}

/// Among the reads that a drain makes there is a report. A drain stops with the first read that
/// gives no whole record.
pub open spec fn report_seen(reads: Seq<Record>) -> bool
    decreases reads.len(),
{
    reads.len() > 0 && whole(reads.first()) && (is_report(reads.first()->Bytes_0@) || report_seen(
        reads.drop_first(),
    ))
}

/// A device being read until it has no more.
#[derive(Clone, Copy, Debug, PartialEq, Eq, Structural)]
pub struct Drain {
    /// A report was among what was read.
    pub saw: bool,
    /// Another read is to be made.
    pub more: bool,
}

impl Drain {
    pub fn new() -> (r: Drain)
        ensures
            r == (Drain { saw: false, more: true }),
    {
        Drain { saw: false, more: true }
    }

    /// What a drain knows after one more read.
    pub open spec fn fed(self, record: Record) -> Drain {
        if whole(record) {
            Drain { saw: self.saw || is_report(record->Bytes_0@), more: true }
        } else {
            Drain { saw: self.saw, more: false }
        }
    }

    /// Takes in what one read gave.
    pub fn feed(&mut self, record: &Record)
        requires
            old(self).more,
        ensures
            *final(self) == old(self).fed(*record),
            final(self).more <==> (record matches Record::Bytes(bytes) && bytes@.len() == 24),
            final(self).more ==> final(self).saw == (old(self).saw || (record->Bytes_0@[16]
                + record->Bytes_0@[17] * 256 == 0 && record->Bytes_0@[18] + record->Bytes_0@[19]
                * 256 == 0)),
            !final(self).more ==> final(self).saw == old(self).saw,
    {
        match record {
            Record::Bytes(bytes) => {
                if bytes.len() == EVENT_BYTES {
                    if bytes[16] == 0 && bytes[17] == 0 && bytes[18] == 0 && bytes[19] == 0 {
                        self.saw = true;
                    }
                } else {
                    self.more = false;
                }
            },
            _ => {
                self.more = false;
            },
        }
    }
}

/// Reads a device until it has no more, the reads being answered by `reads` in turn, and tells
/// whether a report was among what was read.
pub fn drain_input(reads: &Vec<Record>) -> (r: bool)
    ensures
        r == report_seen(reads@),
{
    let mut drain: Drain = Drain::new();
    let mut i: usize = 0;
    assert(reads@.skip(0) == reads@);
    while i < reads.len() && drain.more
        invariant
            i <= reads.len(),
            drain.more ==> report_seen(reads@) == (drain.saw || report_seen(reads@.skip(i as int))),
            !drain.more ==> report_seen(reads@) == drain.saw,
        decreases reads.len() - i,
    {
        proof {
            assert(reads@.skip(i as int).first() == reads@[i as int]);
            assert(reads@.skip(i as int).drop_first() == reads@.skip(i + 1));
        }
        drain.feed(&reads[i]);
        i += 1;
    }
    drain.saw
}

/// What an event asks for.
#[derive(Clone, Copy, Debug, PartialEq, Eq, Structural)]
pub enum Reaction {
    /// A property has changed: empty its channel.
    Property,
    /// The idle time has passed: empty the timer.
    Idle,
    /// The device at this place is gone: watch it no more.
    Lost(usize),
    /// The device at this place can be read.
    Read(usize),
    /// Nothing.
    Nothing,
}

/// The devices by their paths, and the handles under which those that are watched report.
#[derive(Debug)]
pub struct Inputs {
    pub prop_token: Token,
    pub timer_token: Token,
    pub paths: Vec<String>,
    /// The handle and the place of each device that is watched.
    pub watched: Vec<(Token, usize)>,
}

/// The place among `watched` of the first entry with this handle.
pub open spec fn slot(watched: Seq<(Token, usize)>, token: Token) -> Option<int>
    decreases watched.len(),
{
    if watched.len() == 0 {
        None
    } else if watched.first().0 == token {
        Some(0)
    } else {
        match slot(watched.drop_first(), token) {
            Some(i) => Some(i + 1),
            None => None,
        }
    }
}

/// The entries of the devices that got a handle, each with its place.
pub open spec fn entries(added: Seq<Option<Token>>) -> Seq<(Token, usize)>
    decreases added.len(),
{
    if added.len() == 0 {
        Seq::empty()
    } else {
        let before = entries(added.drop_last());
        match added.last() {
            Some(token) => before.push((token, (added.len() - 1) as usize)),
            None => before,
        }
    }
}

proof fn lemma_slot(watched: Seq<(Token, usize)>, token: Token)
    ensures
        slot(watched, token) matches Some(i) ==> 0 <= i < watched.len() && watched[i].0 == token,
    decreases watched.len(),
{
    if watched.len() > 0 && watched.first().0 != token {
        lemma_slot(watched.drop_first(), token);
    }
}

impl Inputs {
    /// Each watched entry points at a device, no two at the same.
    pub open spec fn wf(self) -> bool {
        &&& forall|i: int|
            0 <= i < self.watched@.len() ==> (#[trigger] self.watched@[i]).1 < self.paths@.len()
        &&& forall|i: int, j: int|
            0 <= i < j < self.watched@.len() ==> (#[trigger] self.watched@[i]).1 != (
            #[trigger] self.watched@[j]).1
    }

    /// The device at this place is watched.
    pub open spec fn watches(self, place: int) -> bool {
        exists|i: int| 0 <= i < self.watched@.len() && (#[trigger] self.watched@[i]).1 == place
    }

    /// A device of this path is watched.
    pub open spec fn watches_path(self, path: Seq<char>) -> bool {
        exists|i: int|
            0 <= i < self.watched@.len() && self.paths@[(#[trigger] self.watched@[i]).1 as int]@
                == path
    }

    /// A device of this path is listed.
    pub open spec fn lists(self, path: Seq<char>) -> bool {
        texts(self.paths@).contains(path)
    }

    /// The device at this place has this path and is not watched.
    pub open spec fn free(self, place: int, path: Seq<char>) -> bool {
        0 <= place < self.paths@.len() && self.paths@[place]@ == path && !self.watches(place)
    }

    /// A device of this path is missing: none is listed, or one that is listed is not watched.
    pub open spec fn misses(self, path: Seq<char>) -> bool {
        !self.lists(path) || exists|place: int| #[trigger] self.free(place, path)
    }

    /// What an event asks for.
    pub open spec fn reaction(self, event: Readiness) -> Reaction {
        if event.token == self.prop_token {
            Reaction::Property
        } else if event.token == self.timer_token {
            Reaction::Idle
        } else {
            match slot(self.watched@, event.token) {
                Some(at) => if event.gone() {
                    Reaction::Lost(self.watched@[at].1)
                } else if event.readable {
                    Reaction::Read(self.watched@[at].1)
                } else {
                    Reaction::Nothing
                },
                None => Reaction::Nothing,
            }
        }
    }

    /// `after` is `self` once an event was taken in: a device that is gone is watched no more.
    pub open spec fn noticed(self, event: Readiness, after: Inputs) -> bool {
        &&& after.prop_token == self.prop_token
        &&& after.timer_token == self.timer_token
        &&& after.paths == self.paths
        &&& after.watched@ == if self.reaction(event) is Lost {
            self.watched@.remove(slot(self.watched@, event.token)->0)
        } else {
            self.watched@
        }
    }

    /// `after` is `self` once a device that was opened is watched at `place`: at the first place
    /// of its path that is not watched, or else at a new place at the end of the list.
    pub open spec fn enrolled(
        self,
        path: String,
        token: Token,
        place: usize,
        after: Inputs,
    ) -> bool {
        &&& after.prop_token == self.prop_token
        &&& after.timer_token == self.timer_token
        &&& after.watched@ == self.watched@.push((token, place))
        &&& if exists|k: int| #[trigger] self.free(k, path@) {
            &&& self.free(place as int, path@)
            &&& forall|k: int| #[trigger] self.free(k, path@) ==> place <= k
            &&& after.paths@ == self.paths@
        } else {
            &&& place == self.paths@.len()
            &&& after.paths@ == self.paths@.push(path)
        }
    }

    /// The devices that were opened, with the handle of each that the reactor took.
    pub fn new(
        prop_token: Token,
        timer_token: Token,
        paths: Vec<String>,
        added: &Vec<Option<Token>>,
    ) -> (r: Inputs)
        requires
            paths@.len() == added@.len(),
        ensures
            r.wf(),
            r.prop_token == prop_token,
            r.timer_token == timer_token,
            r.paths == paths,
            r.watched@ == entries(added@),
    {
        let mut watched: Vec<(Token, usize)> = Vec::new();
        let mut i: usize = 0;
        assert(added@.take(0) == Seq::<Option<Token>>::empty());
        while i < added.len()
            invariant
                i <= added.len(),
                watched@ == entries(added@.take(i as int)),
                forall|k: int| 0 <= k < watched@.len() ==> (#[trigger] watched@[k]).1 < i,
                forall|k: int, l: int|
                    0 <= k < l < watched@.len() ==> (#[trigger] watched@[k]).1 != (
                    #[trigger] watched@[l]).1,
            decreases added.len() - i,
        {
            proof {
                assert(added@.take(i + 1).drop_last() == added@.take(i as int));
                assert(added@.take(i + 1).last() == added@[i as int]);
            }
            match added[i] {
                Some(token) => {
                    watched.push((token, i));
                },
                None => {},
            }
            i += 1;
        }
        assert(added@.take(i as int) == added@);
        Inputs { prop_token, timer_token, paths, watched }
    }

    fn position(&self, token: Token) -> (r: Option<usize>)
        ensures
            match r {
                Some(i) => slot(self.watched@, token) == Some(i as int),
                None => slot(self.watched@, token) is None,
            },
    {
        let mut i: usize = 0;
        let ghost all = self.watched@;
        assert(all.skip(0) == all);
        while i < self.watched.len()
            invariant
                i <= self.watched.len(),
                all == self.watched@,
                slot(all, token) == (match slot(all.skip(i as int), token) {
                    Some(k) => Some(k + i),
                    None => None,
                }),
            decreases self.watched.len() - i,
        {
            if same_token(self.watched[i].0, token) {
                return Some(i);
            }
            assert(all.skip(i as int).drop_first() == all.skip(i + 1));
            i += 1;
        }
        None
    }

    /// What an event asks for. A device that is gone is watched no more.
    pub fn on_event(&mut self, event: &Readiness) -> (r: Reaction)
        requires
            old(self).wf(),
        ensures
            final(self).wf(),
            r == old(self).reaction(*event),
            old(self).noticed(*event, *final(self)),
    {
        if same_token(event.token, self.prop_token) {
            return Reaction::Property;
        }
        if same_token(event.token, self.timer_token) {
            return Reaction::Idle;
        }
        match self.position(event.token) {
            None => Reaction::Nothing,
            Some(at) => {
                proof {
                    lemma_slot(self.watched@, event.token);
                }
                let place: usize = self.watched[at].1;
                if event.hangup || event.error {
                    let ghost before = self.watched@;
                    self.watched.remove(at);
                    proof {
                        assert(forall|i: int|
                            0 <= i < self.watched@.len() ==> #[trigger] self.watched@[i] == before[if i
                                < at {
                                i
                            } else {
                                i + 1
                            }]);
                    }
                    Reaction::Lost(place)
                } else if event.readable {
                    Reaction::Read(place)
                } else {
                    Reaction::Nothing
                }
            },
        }
    }

    /// Whether to try and open devices again: fewer are watched than are listed.
    pub fn needs_reopen(&self) -> (r: bool)
        ensures
            r == (self.watched@.len() < self.paths@.len()),
    {
        self.watched.len() < self.paths.len()
    }

    /// Whether the device at this place is watched.
    fn is_watched(&self, place: usize) -> (r: bool)
        ensures
            r == self.watches(place as int),
    {
        let mut i: usize = 0;
        while i < self.watched.len()
            invariant
                i <= self.watched.len(),
                forall|k: int| 0 <= k < i ==> (#[trigger] self.watched@[k]).1 != place,
            decreases self.watched.len() - i,
        {
            if self.watched[i].1 == place {
                assert(self.watched@[i as int].1 == place);
                return true;
            }
            i += 1;
        }
        false
    }

    /// The first place of this path that is not watched.
    fn free_place(&self, path: &str) -> (r: Option<usize>)
        ensures
            match r {
                Some(place) => self.free(place as int, path@) && forall|k: int| #[trigger]
                    self.free(k, path@) ==> place <= k,
                None => forall|k: int| !#[trigger] self.free(k, path@),
            },
    {
        let mut i: usize = 0;
        while i < self.paths.len()
            invariant
                i <= self.paths.len(),
                forall|k: int| 0 <= k < i ==> !#[trigger] self.free(k, path@),
            decreases self.paths.len() - i,
        {
            if same_text(self.paths[i].as_str(), path) && !self.is_watched(i) {
                return Some(i);
            }
            i += 1;
        }
        None
    }

    /// Whether a device of this path is missing: none is listed, or one that is listed is not
    /// watched.
    pub fn is_missing(&self, path: &str) -> (r: bool)
        ensures
            r == self.misses(path@),
    {
        if self.free_place(path).is_some() {
            return true;
        }
        let mut i: usize = 0;
        while i < self.paths.len()
            invariant
                i <= self.paths.len(),
                forall|k: int| !#[trigger] self.free(k, path@),
                forall|k: int| 0 <= k < i ==> #[trigger] texts(self.paths@)[k] != path@,
            decreases self.paths.len() - i,
        {
            if same_text(self.paths[i].as_str(), path) {
                assert(texts(self.paths@)[i as int] == path@);
                return false;
            }
            i += 1;
        }
        true
    }

    /// Watches a device that was opened under its handle. It takes the place of a device of its
    /// path that is not watched, where there is one, and is listed at the end otherwise. The
    /// place that it has then.
    pub fn enroll(&mut self, path: String, token: Token) -> (r: usize)
        requires
            old(self).wf(),
        ensures
            final(self).wf(),
            old(self).enrolled(path, token, r, *final(self)),
            final(self).watches_path(path@),
    {
        let ghost before = *self;
        let ghost name = path@;
        match self.free_place(path.as_str()) {
            Some(place) => {
                self.watched.push((token, place));
                proof {
                    assert(before.free(place as int, name));
                    let n = before.watched@.len() as int;
                    assert(self.watched@[n].1 == place);
                    assert forall|i: int| 0 <= i < n implies (#[trigger] self.watched@[i]).1
                        != place by {
                        assert(before.watched@[i] == self.watched@[i]);
                    }
                }
                place
            },
            None => {
                let place: usize = self.paths.len();
                self.watched.push((token, place));
                self.paths.push(path);
                proof {
                    let n = before.watched@.len() as int;
                    assert(self.watched@[n].1 == place);
                    assert forall|i: int| 0 <= i < n implies (#[trigger] self.watched@[i]).1
                        < place by {
                        assert(before.watched@[i] == self.watched@[i]);
                    }
                }
                place
            },
        }
    }
}

/// What a round of events has brought.
#[derive(Clone, Copy, Debug, PartialEq, Eq, Structural)]
pub struct Round {
    pub saw_input: bool,
    pub prop_change: bool,
}

impl Round {
    pub fn new() -> (r: Round)
        ensures
            r == (Round { saw_input: false, prop_change: false }),
    {
        Round { saw_input: false, prop_change: false }
    }

    /// Notes the reaction to an event; `reported` is whether a drain that it asked for saw a
    /// report.
    pub fn note(&mut self, reaction: Reaction, reported: bool)
        ensures
            final(self).prop_change == (old(self).prop_change || reaction == Reaction::Property),
            final(self).saw_input == (old(self).saw_input || (reaction is Read && reported)),
    {
        match reaction {
            Reaction::Property => {
                self.prop_change = true;
            },
            Reaction::Read(_) => {
                if reported {
                    self.saw_input = true;
                }
            },
            _ => {},
        }
    }
}

/// What is done in a wake-up, in this order.
#[derive(Clone, Copy, Debug, PartialEq, Eq, Structural)]
pub enum Wake {
    /// The events are taken in.
    Events,
    /// Devices are opened again.
    Reopen,
    /// The change of a property is followed.
    Change,
    /// Input is followed.
    Input,
}

impl Round {
    /// What is to be done after `done`, where devices are missing or not.
    pub open spec fn next_after(self, missing: bool, done: Wake) -> Option<Wake> {
        if done == Wake::Events && missing {
            Some(Wake::Reopen)
        } else if (done == Wake::Events || done == Wake::Reopen) && self.prop_change {
            Some(Wake::Change)
        } else if done != Wake::Input && self.saw_input {
            Some(Wake::Input)
        } else {
            None
        }
    }

    /// What is to be done after `done`; `missing` is whether devices were missing once the events
    /// were taken in.
    pub fn next(&self, missing: bool, done: Wake) -> (r: Option<Wake>)
        ensures
            r == self.next_after(missing, done),
    {
        if missing && done == Wake::Events {
            return Some(Wake::Reopen);
        }
        if self.prop_change && (done == Wake::Events || done == Wake::Reopen) {
            return Some(Wake::Change);
        }
        if self.saw_input && done != Wake::Input {
            return Some(Wake::Input);
        }
        None
    }

    /// All that is done after `done`.
    pub open spec fn all_after(self, missing: bool, done: Wake) -> Seq<Wake>
        decreases
            match done {
                Wake::Events => 3int,
                Wake::Reopen => 2,
                Wake::Change => 1,
                Wake::Input => 0,
            },
    {
        match self.next_after(missing, done) {
            Some(step) => seq![step] + self.all_after(missing, step),
            None => Seq::empty(),
        }
    }
}

/// The step, where it is due.
pub open spec fn when(due: bool, step: Wake) -> Seq<Wake> {
    if due {
        seq![step]
    } else {
        Seq::empty()
    }
}

/// In a wake-up devices are opened again first, then the change of a property is followed, and
/// input last: each at most once, and exactly where it is due. So the mode that input asks for is
/// not forgotten over a change of a property in the same wake-up.
pub proof fn law_order_of_a_wake_up(round: Round, missing: bool)
    ensures
        round.all_after(missing, Wake::Events) == when(missing, Wake::Reopen) + when(
            round.prop_change,
            Wake::Change,
        ) + when(round.saw_input, Wake::Input),
        round.saw_input ==> round.all_after(missing, Wake::Events).last() == Wake::Input,
{
    reveal_with_fuel(Round::all_after, 4);
    let all = round.all_after(missing, Wake::Events);
    assert(all =~= when(missing, Wake::Reopen) + when(round.prop_change, Wake::Change) + when(
        round.saw_input,
        Wake::Input,
    ));
}

/// Never more devices are watched than are listed, and opening again is tried exactly when some
/// listed device is not watched.
pub proof fn law_reopen_when_a_device_is_missing(inputs: Inputs)
    requires
        inputs.wf(),
    ensures
        inputs.watched@.len() <= inputs.paths@.len(),
        inputs.watched@.len() < inputs.paths@.len() <==> exists|place: int|
            0 <= place < inputs.paths@.len() && !#[trigger] inputs.watches(place),
{
    let places = inputs.watched@.map_values(|e: (Token, usize)| e.1 as int);
    let n = inputs.paths@.len() as int;
    let all = set_int_range(0, n);
    lemma_int_range(0, n);
    assert(places.no_duplicates());
    places.unique_seq_to_set();
    assert(places.to_set().subset_of(all));
    lemma_len_subset(places.to_set(), all);
    assert forall|place: int| #[trigger] inputs.watches(place) == places.to_set().contains(place) by {
        if inputs.watches(place) {
            let i = choose|i: int|
                0 <= i < inputs.watched@.len() && (#[trigger] inputs.watched@[i]).1 == place;
            assert(places[i] == place);
        }
        if places.contains(place) {
            let i = choose|i: int| 0 <= i < places.len() && places[i] == place;
            assert(inputs.watched@[i].1 == place);
        }
    }
    if places.len() == n {
        lemma_subset_equality(places.to_set(), all);
        assert forall|place: int| 0 <= place < n implies #[trigger] inputs.watches(place) by {
            assert(all.contains(place));
        }
    } else if forall|place: int| 0 <= place < n ==> #[trigger] inputs.watches(place) {
        assert forall|place: int| all.contains(place) implies places.to_set().contains(place) by {
            assert(inputs.watches(place));
        }
        assert(places.to_set() =~= all);
    }
}

/// A handle that no entry has is found at the end once it is added there.
proof fn lemma_slot_push(watched: Seq<(Token, usize)>, token: Token, place: usize)
    requires
        slot(watched, token) is None,
    ensures
        slot(watched.push((token, place)), token) == Some(watched.len() as int),
    decreases watched.len(),
{
    let grown = watched.push((token, place));
    if watched.len() > 0 {
        assert(grown.first() == watched.first());
        assert(grown.drop_first() == watched.drop_first().push((token, place)));
        lemma_slot_push(watched.drop_first(), token, place);
    }
}

/// A device that was just lost is missing, and opening again is tried.
pub proof fn law_lost_device_is_missing(before: Inputs, lost: Readiness, after: Inputs)
    requires
        before.wf(),
        before.reaction(lost) is Lost,
        before.noticed(lost, after),
    ensures
        after.wf(),
        before.reaction(lost)->Lost_0 < before.paths@.len(),
        after.free(
            before.reaction(lost)->Lost_0 as int,
            before.paths@[before.reaction(lost)->Lost_0 as int]@,
        ),
        after.misses(before.paths@[before.reaction(lost)->Lost_0 as int]@),
        after.watched@.len() + 1 == before.watched@.len(),
        after.watched@.len() < after.paths@.len(),
{
    lemma_slot(before.watched@, lost.token);
    law_reopen_when_a_device_is_missing(before);
    let at = slot(before.watched@, lost.token)->0;
    let place = before.watched@[at].1;
    assert forall|i: int| 0 <= i < after.watched@.len() implies #[trigger] after.watched@[i]
        == before.watched@[if i < at { i } else { i + 1 }] by {}
    if after.watches(place as int) {
        let i = choose|i: int|
            0 <= i < after.watched@.len() && (#[trigger] after.watched@[i]).1 == place;
        let j = if i < at { i } else { i + 1 };
        assert(before.watched@[j].1 == before.watched@[at].1);
    }
    assert(after.free(place as int, before.paths@[place as int]@));
}

/// A device that was lost and is opened again is watched again. It is listed no second time, as
/// many devices are watched as before the loss, and when it can be read under its new handle, one
/// that nothing else has, it is read.
pub proof fn law_lost_device_comes_back(
    before: Inputs,
    lost: Readiness,
    without: Inputs,
    path: String,
    token: Token,
    place: usize,
    after: Inputs,
    event: Readiness,
)
    requires
        before.wf(),
        before.reaction(lost) is Lost,
        before.noticed(lost, without),
        path@ == before.paths@[before.reaction(lost)->Lost_0 as int]@,
        without.enrolled(path, token, place, after),
        token != before.prop_token,
        token != before.timer_token,
        slot(without.watched@, token) is None,
        event.token == token,
        event.readable,
        !event.gone(),
    ensures
        after.paths@ == before.paths@,
        after.watched@.len() == before.watched@.len(),
        after.watches_path(path@),
        after.reaction(event) == Reaction::Read(place),
        after.paths@[place as int]@ == path@,
{
    law_lost_device_is_missing(before, lost, without);
    lemma_slot_push(without.watched@, token, place);
    assert(after.watched@[without.watched@.len() as int] == (token, place));
}

/// With no path listed twice, a device is missing exactly when none of its path is watched.
pub proof fn law_missing_is_not_watched(inputs: Inputs, path: Seq<char>)
    requires
        inputs.wf(),
        texts(inputs.paths@).no_duplicates(),
    ensures
        inputs.misses(path) == !inputs.watches_path(path),
{
    let names = texts(inputs.paths@);
    if inputs.watches_path(path) {
        let i = choose|i: int|
            0 <= i < inputs.watched@.len() && inputs.paths@[(#[trigger] inputs.watched@[i]).1
                as int]@ == path;
        let at = inputs.watched@[i].1 as int;
        assert(names[at] == path);
        assert forall|k: int| !#[trigger] inputs.free(k, path) by {
            if inputs.free(k, path) {
                assert(names[k] == path);
                assert(inputs.watches(at));
            }
        }
    } else if inputs.lists(path) {
        let k = choose|k: int| 0 <= k < names.len() && names[k] == path;
        if inputs.watches(k) {
            let i = choose|i: int|
                0 <= i < inputs.watched@.len() && (#[trigger] inputs.watched@[i]).1 == k;
            assert(inputs.paths@[inputs.watched@[i].1 as int]@ == path);
        }
        assert(inputs.free(k, path));
    }
}

/// A drain that is fed the answers to its reads one by one has seen a report exactly when there
/// is one among the reads that it makes.
pub proof fn law_drain_sees_reports(drain: Drain, reads: Seq<Record>)
    requires
        drain.more,
    ensures
        drain_after(drain, reads).saw == (drain.saw || report_seen(reads)),
    decreases reads.len(),
{
    if reads.len() > 0 {
        let next = drain.fed(reads.first());
        if next.more {
            law_drain_sees_reports(next, reads.drop_first());
        } else {
            assert(drain_after(next, reads.drop_first()) == next);
        }
    }
}

/// A drain after as many of these reads as it makes.
pub open spec fn drain_after(drain: Drain, reads: Seq<Record>) -> Drain
    decreases reads.len(),
{
    if reads.len() == 0 || !drain.more {
        drain
    } else {
        drain_after(drain.fed(reads.first()), reads.drop_first())
    }
}

/// A whole record makes a drain see a report exactly when the number at its bytes 16 and 17, the
/// type, and the one at 18 and 19, the code, are both zero, low byte first; the drain goes on.
/// Neither the time before them nor the value behind them counts: records that agree on these
/// four bytes are taken alike.
pub proof fn law_type_and_code_make_a_report(drain: Drain, a: Vec<u8>, b: Vec<u8>)
    requires
        a@.len() == 24,
        b@.len() == 24,
    ensures
        drain.fed(Record::Bytes(a)).more,
        drain.fed(Record::Bytes(a)).saw == (drain.saw || (a@[16] + 256 * a@[17] == 0 && a@[18] + 256
            * a@[19] == 0)),
        a@.subrange(16, 20) == b@.subrange(16, 20) ==> drain.fed(Record::Bytes(a)) == drain.fed(
            Record::Bytes(b),
        ),
{
    let x = a@.subrange(16, 20);
    let y = b@.subrange(16, 20);
    assert(x[0] == a@[16] && x[1] == a@[17] && x[2] == a@[18] && x[3] == a@[19]);
    assert(y[0] == b@[16] && y[1] == b@[17] && y[2] == b@[18] && y[3] == b@[19]);
}

/// A read that gives no whole record ends a drain, which keeps what it saw.
pub proof fn law_drain_ends(drain: Drain, bytes: Vec<u8>)
    requires
        bytes@.len() != 24,
    ensures
        drain.fed(Record::Bytes(bytes)) == (Drain { saw: drain.saw, more: false }),
        drain.fed(Record::Drained) == (Drain { saw: drain.saw, more: false }),
        drain.fed(Record::Failed) == (Drain { saw: drain.saw, more: false }),
{
}

/// What a read gave is a whole record with type and code zero.
pub open spec fn reports(record: Record) -> bool {
    record matches Record::Bytes(bytes) && bytes@.len() == 24 && bytes@.subrange(16, 20) == seq![
        0u8,
        0u8,
        0u8,
        0u8,
    ]
}

/// A device has reported exactly when one of its reads gave a report and all reads before gave
/// whole records.
pub proof fn law_a_report_is_noticed(reads: Seq<Record>)
    ensures
        report_seen(reads) <==> exists|i: int|
            0 <= i < reads.len() && reports(#[trigger] reads[i]) && (forall|j: int|
                0 <= j < i ==> (#[trigger] reads[j] matches Record::Bytes(bytes) && bytes@.len()
                    == 24)),
    decreases reads.len(),
{
    if reads.len() > 0 {
        let first = reads[0];
        let rest = reads.drop_first();
        law_a_report_is_noticed(rest);
        if first is Bytes && first->Bytes_0@.len() == 24 {
            let bytes = first->Bytes_0@;
            let part = bytes.subrange(16, 20);
            assert(part[0] == bytes[16] && part[1] == bytes[17] && part[2] == bytes[18] && part[3]
                == bytes[19]);
            assert(is_report(bytes) ==> part == seq![0u8, 0u8, 0u8, 0u8]);
            assert(is_report(bytes) == reports(first));
        }
        if report_seen(reads) {
            if is_report(first->Bytes_0@) {
                assert(reports(reads[0]));
            } else {
                let i = choose|i: int|
                    0 <= i < rest.len() && reports(#[trigger] rest[i]) && (forall|j: int|
                        0 <= j < i ==> (#[trigger] rest[j] matches Record::Bytes(bytes)
                            && bytes@.len() == 24));
                assert(reads[i + 1] == rest[i]);
                assert forall|j: int| 0 <= j < i + 1 implies (#[trigger] reads[j] matches
                    Record::Bytes(bytes) && bytes@.len() == 24) by {
                    if j > 0 {
                        assert(reads[j] == rest[j - 1]);
                    }
                }
            }
        }
        if exists|i: int|
            0 <= i < reads.len() && reports(#[trigger] reads[i]) && (forall|j: int|
                0 <= j < i ==> (#[trigger] reads[j] matches Record::Bytes(bytes) && bytes@.len()
                    == 24)) {
            let i = choose|i: int|
                0 <= i < reads.len() && reports(#[trigger] reads[i]) && (forall|j: int|
                    0 <= j < i ==> (#[trigger] reads[j] matches Record::Bytes(bytes) && bytes@.len()
                        == 24));
            assert(reads[0] is Bytes);
            if i > 0 {
                assert(rest[i - 1] == reads[i]);
                assert forall|j: int| 0 <= j < i - 1 implies (#[trigger] rest[j] matches
                    Record::Bytes(bytes) && bytes@.len() == 24) by {
                    assert(rest[j] == reads[j + 1]);
                }
            }
        }
    }
}

/// The entry that a handle stands for is the first that has it; there is none where no entry has.
pub proof fn law_first_entry_of_a_handle(watched: Seq<(Token, usize)>, token: Token, i: int)
    requires
        0 <= i < watched.len(),
        watched[i].0 == token,
        forall|j: int| 0 <= j < i ==> (#[trigger] watched[j]).0 != token,
    ensures
        slot(watched, token) == Some(i),
    decreases watched.len(),
{
    if i > 0 {
        let rest = watched.drop_first();
        assert(watched[0].0 != token);
        assert(rest[i - 1] == watched[i]);
        assert forall|j: int| 0 <= j < i - 1 implies (#[trigger] rest[j]).0 != token by {
            assert(rest[j] == watched[j + 1]);
        }
        law_first_entry_of_a_handle(rest, token, i - 1);
    }
}

proof fn lemma_no_slot(watched: Seq<(Token, usize)>, token: Token)
    requires
        forall|j: int| 0 <= j < watched.len() ==> (#[trigger] watched[j]).0 != token,
    ensures
        slot(watched, token) is None,
    decreases watched.len(),
{
    if watched.len() > 0 {
        let rest = watched.drop_first();
        assert(watched[0].0 != token);
        assert forall|j: int| 0 <= j < rest.len() implies (#[trigger] rest[j]).0 != token by {
            assert(rest[j] == watched[j + 1]);
        }
        lemma_no_slot(rest, token);
    }
}

/// Whatever else it tells, an event of the property's handle is a property change and one of the
/// timer's is the end of the idle time. An event of a device is its loss where there is an error or
/// a hangup, else a reason to read it where it is readable. An event of no known handle is nothing.
pub proof fn law_reaction_by_handle(inputs: Inputs, event: Readiness, i: int)
    requires
        inputs.prop_token != inputs.timer_token,
    ensures
        event.token == inputs.prop_token ==> inputs.reaction(event) == Reaction::Property,
        event.token == inputs.timer_token ==> inputs.reaction(event) == Reaction::Idle,
        event.token != inputs.prop_token && event.token != inputs.timer_token ==> {
            &&& (forall|j: int|
                0 <= j < inputs.watched@.len() ==> (#[trigger] inputs.watched@[j]).0 != event.token)
                ==> inputs.reaction(event) == Reaction::Nothing
            &&& 0 <= i < inputs.watched@.len() && inputs.watched@[i].0 == event.token && (forall|
                j: int,
            |
                0 <= j < i ==> (#[trigger] inputs.watched@[j]).0 != event.token) ==> {
                let place = inputs.watched@[i].1;
                &&& event.error ==> inputs.reaction(event) == Reaction::Lost(place)
                &&& event.hangup ==> inputs.reaction(event) == Reaction::Lost(place)
                &&& !event.error && !event.hangup && event.readable ==> inputs.reaction(event)
                    == Reaction::Read(place)
                &&& !event.error && !event.hangup && !event.readable ==> inputs.reaction(event)
                    == Reaction::Nothing
            }
        },
{
    let w = inputs.watched@;
    if forall|j: int| 0 <= j < w.len() ==> (#[trigger] w[j]).0 != event.token {
        lemma_no_slot(w, event.token);
    }
    if 0 <= i < w.len() && w[i].0 == event.token && (forall|j: int|
        0 <= j < i ==> (#[trigger] w[j]).0 != event.token) {
        law_first_entry_of_a_handle(w, event.token, i);
    }
}

/// Of the devices that were opened, those that got a handle are watched under it, and no others,
/// the earlier ones first.
pub proof fn law_watched_from_the_start(added: Seq<Option<Token>>, k: int, token: Token)
    requires
        added.len() <= usize::MAX,
        0 <= k < added.len(),
    ensures
        entries(added).contains((token, k as usize)) <==> added[k] == Some(token),
        forall|i: int, j: int|
            0 <= i < j < entries(added).len() ==> entries(added)[i].1 < entries(added)[j].1,
        forall|i: int| 0 <= i < entries(added).len() ==> (#[trigger] entries(added)[i]).1 < added.len(),
    decreases added.len(),
{
    let init = added.drop_last();
    let n = init.len() as int;
    let before = entries(init);
    let all = entries(added);
    if n > 0 {
        law_watched_from_the_start(init, if k < n { k } else { 0 }, token);
    }
    assert(forall|i: int| 0 <= i < before.len() ==> all[i] == #[trigger] before[i]);
    if k < n {
        assert(init[k] == added[k]);
        if before.contains((token, k as usize)) {
            let i = choose|i: int| 0 <= i < before.len() && before[i] == (token, k as usize);
            assert(all[i] == (token, k as usize));
        }
        if all.contains((token, k as usize)) {
            let i = choose|i: int| 0 <= i < all.len() && all[i] == (token, k as usize);
            assert(i < before.len());
            assert(before[i] == (token, k as usize));
        }
    } else {
        if added[k] == Some(token) {
            assert(all[before.len() as int] == (token, k as usize));
        }
        if all.contains((token, k as usize)) {
            let i = choose|i: int| 0 <= i < all.len() && all[i] == (token, k as usize);
            if i < before.len() {
                assert(before[i].1 < n);
            }
        }
    }
}

/// An event changes what is watched only by the loss of a device: of the places just the lost one
/// is watched no more, and the list of devices stays.
pub proof fn law_only_the_lost_place_goes(
    before: Inputs,
    event: Readiness,
    after: Inputs,
    place: int,
)
    requires
        before.wf(),
        before.noticed(event, after),
    ensures
        after.paths == before.paths,
        after.watches(place) <==> before.watches(place) && !(before.reaction(event) is Lost
            && before.reaction(event)->Lost_0 == place),
{
    if before.reaction(event) is Lost {
        lemma_slot(before.watched@, event.token);
        let at = slot(before.watched@, event.token)->0;
        assert forall|i: int| 0 <= i < after.watched@.len() implies #[trigger] after.watched@[i]
            == before.watched@[if i < at { i } else { i + 1 }] by {}
        if after.watches(place) {
            let i = choose|i: int|
                0 <= i < after.watched@.len() && (#[trigger] after.watched@[i]).1 == place;
            let j = if i < at { i } else { i + 1 };
            assert(before.watched@[j].1 == place);
            assert(before.watched@[at].1 != place);
        }
        if before.watches(place) && before.watched@[at].1 != place {
            let j = choose|j: int|
                0 <= j < before.watched@.len() && (#[trigger] before.watched@[j]).1 == place;
            let i = if j < at { j } else { j - 1 };
            assert(after.watched@[i].1 == place);
        }
    }
}

/// A device that is enrolled is watched at its place besides those that were; every device that was
/// listed stays at its place, and the place has the path of the device.
pub proof fn law_enrolling_adds_one(
    before: Inputs,
    path: String,
    token: Token,
    at: usize,
    after: Inputs,
    place: int,
)
    requires
        before.wf(),
        before.enrolled(path, token, at, after),
    ensures
        after.watches(place) <==> before.watches(place) || place == at,
        after.watched@.len() == before.watched@.len() + 1,
        !before.watches(at as int),
        at < after.paths@.len(),
        after.paths@[at as int]@ == path@,
        before.paths@.len() <= after.paths@.len() <= before.paths@.len() + 1,
        forall|k: int| 0 <= k < before.paths@.len() ==> #[trigger] after.paths@[k]
            == before.paths@[k],
{
    let n = before.watched@.len() as int;
    assert(after.watched@[n] == (token, at));
    assert(forall|i: int| 0 <= i < n ==> after.watched@[i] == #[trigger] before.watched@[i]);
    if before.watches(place) {
        let i = choose|i: int|
            0 <= i < before.watched@.len() && (#[trigger] before.watched@[i]).1 == place;
        assert(after.watched@[i].1 == place);
    }
    if after.watches(place) && place != at {
        let i = choose|i: int|
            0 <= i < after.watched@.len() && (#[trigger] after.watched@[i]).1 == place;
        assert(before.watched@[i].1 == place);
    }
    if before.watches(at as int) {
        let i = choose|i: int|
            0 <= i < before.watched@.len() && (#[trigger] before.watched@[i]).1 == at;
        assert(before.watched@[i].1 < before.paths@.len());
    }
}

/// A path is missing exactly when not every device is there that the list has of it, or the list
/// has none.
pub proof fn law_missing_paths(inputs: Inputs, path: Seq<char>)
    ensures
        inputs.misses(path) <==> (forall|k: int|
            0 <= k < inputs.paths@.len() ==> (#[trigger] inputs.paths@[k])@ != path) || (exists|k:
            int|
            0 <= k < inputs.paths@.len() && (#[trigger] inputs.paths@[k])@ == path && (forall|i:
                int|
                0 <= i < inputs.watched@.len() ==> (#[trigger] inputs.watched@[i]).1 != k)),
{
    let names = texts(inputs.paths@);
    assert(forall|k: int| 0 <= k < names.len() ==> #[trigger] names[k] == inputs.paths@[k]@);
    if inputs.lists(path) {
        let k = choose|k: int| 0 <= k < names.len() && names[k] == path;
        assert(inputs.paths@[k]@ == path);
    } else {
        assert forall|k: int| 0 <= k < inputs.paths@.len() implies (#[trigger] inputs.paths@[k])@
            != path by {
            assert(names.contains(names[k]));
        }
    }
    if exists|k: int|
        0 <= k < inputs.paths@.len() && (#[trigger] inputs.paths@[k])@ == path && (forall|i: int|
            0 <= i < inputs.watched@.len() ==> (#[trigger] inputs.watched@[i]).1 != k) {
        let k = choose|k: int|
            0 <= k < inputs.paths@.len() && (#[trigger] inputs.paths@[k])@ == path && (forall|i:
                int|
                0 <= i < inputs.watched@.len() ==> (#[trigger] inputs.watched@[i]).1 != k);
        assert(inputs.free(k, path));
    }
    if exists|place: int| #[trigger] inputs.free(place, path) {
        let k = choose|place: int| #[trigger] inputs.free(place, path);
        assert(inputs.paths@[k]@ == path);
    }
}

/// After the events, each of the three things that a wake-up may do is done exactly when it is due.
pub proof fn law_nothing_due_is_left_out(round: Round, missing: bool)
    ensures
        round.all_after(missing, Wake::Events).contains(Wake::Reopen) <==> missing,
        round.all_after(missing, Wake::Events).contains(Wake::Change) <==> round.prop_change,
        round.all_after(missing, Wake::Events).contains(Wake::Input) <==> round.saw_input,
        round.all_after(missing, Wake::Events).no_duplicates(),
{
    law_order_of_a_wake_up(round, missing);
    let a = when(missing, Wake::Reopen);
    let b = when(round.prop_change, Wake::Change);
    let c = when(round.saw_input, Wake::Input);
    let all = a + b + c;
    if missing {
        assert(all[0] == Wake::Reopen);
    }
    if round.prop_change {
        assert(all[a.len() as int] == Wake::Change);
    }
    if round.saw_input {
        assert(all[(a + b).len() as int] == Wake::Input);
    }
}

} // verus!
