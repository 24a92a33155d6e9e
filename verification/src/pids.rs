//! Sets of processes.

use crate::numeral::{
    decimal, law_numeral_round_trip, law_shortest_numeral, parse_i32, parsed, signed_decimal,
};
use crate::text::{
    law_trim_leaves_the_core, lemma_pieces_part, lemma_pieces_whole, pieces, split, texts, trim,
    trimmed, whitespace, Separator,
};
use crate::watchdog::tick::lemma_filter_map_prepend;
use vstd::prelude::*;

verus! {

/// A set of process numbers.
#[derive(Debug)]
pub struct PidSet {
    /// Each number once.
    pids: Vec<i32>,
}

impl View for PidSet {
    type V = Set<i32>;

    closed spec fn view(&self) -> Set<i32> {
        self.pids@.to_set()
    }
}

impl PidSet {
    /// No number is held twice.
    #[verifier::type_invariant]
    spec fn wf(self) -> bool {
        self.pids@.no_duplicates()
    }

    /// No processes.
    pub fn new() -> (r: PidSet)
        ensures
            r@ == Set::<i32>::empty(),
    {
        let r = PidSet { pids: Vec::new() };
        assert(r@ == Set::<i32>::empty());
        r
    }

    /// Whether a process is in the set.
    pub fn contains(&self, pid: i32) -> (r: bool)
        ensures
            r == self@.contains(pid),
    {
        let mut i: usize = 0;
        while i < self.pids.len()
            invariant
                i <= self.pids.len(),
                forall|k: int| 0 <= k < i ==> self.pids@[k] != pid,
            decreases self.pids.len() - i,
        {
            if self.pids[i] == pid {
                assert(self.pids@.contains(pid));
                return true;
            }
            i += 1;
        }
        false
    }

    /// The set with one process more.
    pub fn with(self, pid: i32) -> (r: PidSet)
        ensures
            r@ == self@.insert(pid),
    {
        proof {
            use_type_invariant(&self);
        }
        if self.contains(pid) {
            assert(self@ == self@.insert(pid));
            return self;
        }
        let ghost held = self.pids@;
        let mut pids: Vec<i32> = self.pids;
        pids.push(pid);
        proof {
            assert(!held.contains(pid));
            assert forall|i: int, j: int| 0 <= i < j < pids@.len() implies pids@[i] != pids@[j] by {
                if j == held.len() {
                    assert(held.contains(held[i]));
                }
            }
        }
        let r = PidSet { pids };
        proof {
            held.lemma_push_to_set_commute(pid);
        }
        r
    }

    /// How many processes are in the set.
    pub fn len(&self) -> (r: usize)
        ensures
            r == self@.len(),
    {
        proof {
            use_type_invariant(self);
            self.pids@.unique_seq_to_set();
        }
        self.pids.len()
    }

    fn within(&self, other: &PidSet) -> (r: bool)
        ensures
            r == self@.subset_of(other@),
    {
        let mut i: usize = 0;
        while i < self.pids.len()
            invariant
                i <= self.pids.len(),
                forall|k: int| 0 <= k < i ==> #[trigger] other@.contains(self.pids@[k]),
            decreases self.pids.len() - i,
        {
            if !other.contains(self.pids[i]) {
                assert(self.pids@.contains(self.pids@[i as int]));
                assert(self@.contains(self.pids@[i as int]));
                return false;
            }
            i += 1;
        }
        assert forall|pid: i32| self@.contains(pid) implies other@.contains(pid) by {
            let k = choose|k: int| 0 <= k < self.pids@.len() && self.pids@[k] == pid;
            assert(other@.contains(self.pids@[k]));
        }
        true
    }

    /// Whether two sets hold the same processes.
    pub fn same(&self, other: &PidSet) -> (r: bool)
        ensures
            r == (self@ == other@),
    {
        let r: bool = self.within(other) && other.within(self);
        assert(r ==> self@ =~= other@);
        r
    }
}

/// The process number on a line, where it holds one.
pub open spec fn pid_on(line: Seq<char>) -> Option<int> {
    match parsed(trimmed(line), i32::MIN as int, i32::MAX as int) {
        Ok(pid) => Some(pid),
        Err(_) => None,
    }
}

/// The process numbers on the lines of a text, in order.
pub open spec fn pids_in(text: Seq<char>) -> Seq<int> {
    pieces(text, Separator::Line.pred()).filter_map(|l: Seq<char>| pid_on(l))
}

/// Reads the process numbers of a list with one on each line; other lines are passed over.
pub fn listed_pids(text: &str) -> (r: Vec<i32>)
    ensures
        r@.map_values(|p: i32| p as int) == pids_in(text@),
{
    let all: Vec<String> = split(text, Separator::Line);
    let mut out: Vec<i32> = Vec::new();
    let mut i: usize = 0;
    let ghost lines = texts(all@);
    let ghost read = |l: Seq<char>| pid_on(l);
    let ghost num = |p: i32| p as int;
    proof {
        assert(lines.take(0) == Seq::<Seq<char>>::empty());
        assert(lines.take(0).filter_map(read) == Seq::<int>::empty());
        assert(out@.map_values(num) == Seq::<int>::empty());
    }
    while i < all.len()
        invariant
            i <= all.len(),
            lines == texts(all@),
            read == (|l: Seq<char>| pid_on(l)),
            num == (|p: i32| p as int),
            out@.map_values(num) == lines.take(i as int).filter_map(read),
        decreases all.len() - i,
    {
        let ghost before = out@;
        proof {
            lines.lemma_filter_map_take_succ(read, i as int);
        }
        match parse_i32(trim(all[i].as_str())) {
            Ok(pid) => {
                out.push(pid);
                assert(out@.map_values(num) == before.map_values(num).push(pid as int));
            },
            Err(_) => {},
        }
        i += 1;
    }
    assert(lines.take(i as int) == lines);
    out
}

/// Of processes and the users that own them, where those are known, the set of the processes of
/// one user.
pub fn top_app_pids_for_uid(owned: &Vec<(i32, Option<u32>)>, uid: u32) -> (r: PidSet)
    ensures
        forall|pid: i32| #[trigger] r@.contains(pid) <==> owned@.contains((pid, Some(uid))),
{
    let mut set: PidSet = PidSet::new();
    let mut i: usize = 0;
    while i < owned.len()
        invariant
            i <= owned.len(),
            forall|pid: i32| #[trigger]
                set@.contains(pid) <==> owned@.take(i as int).contains((pid, Some(uid))),
        decreases owned.len() - i,
    {
        let pid: i32 = owned[i].0;
        let ghost before = set@;
        let hit: bool = match owned[i].1 {
            Some(owner) => owner == uid,
            None => false,
        };
        if hit {
            set = set.with(pid);
        }
        proof {
            let grown = owned@.take(i + 1);
            assert(grown == owned@.take(i as int).push(owned@[i as int]));
            assert forall|p: i32| #[trigger] set@.contains(p) <==> grown.contains((p, Some(uid))) by {
                if grown.contains((p, Some(uid))) {
                    let k = choose|k: int| 0 <= k < grown.len() && grown[k] == (p, Some(uid));
                    if k < i {
                        assert(owned@.take(i as int)[k] == (p, Some(uid)));
                        assert(before.contains(p));
                    }
                }
                if before.contains(p) {
                    let k = choose|k: int|
                        0 <= k < owned@.take(i as int).len() && owned@.take(i as int)[k] == (
                            p,
                            Some(uid),
                        );
                    assert(grown[k] == (p, Some(uid)));
                }
                if hit && p == pid {
                    assert(grown[i as int] == (p, Some(uid)));
                }
            }
        }
        i += 1;
    }
    assert(owned@.take(i as int) == owned@);
    set
}

/// A process number on a line of its own is read, whatever whitespace stands around it; lines are
/// read one after the other, and one that holds no number adds none.
pub proof fn law_pids_line_by_line(
    before: Seq<char>,
    pid: int,
    after: Seq<char>,
    line: Seq<char>,
    rest: Seq<char>,
)
    requires
        i32::MIN <= pid <= i32::MAX,
        forall|i: int| 0 <= i < before.len() ==> whitespace(#[trigger] before[i]),
        forall|i: int| 0 <= i < after.len() ==> whitespace(#[trigger] after[i]),
        !line.contains('\n'),
    ensures
        pid_on(before + signed_decimal(pid) + after) == Some(pid),
        pid_on(line) is None <==> parsed(trimmed(line), i32::MIN as int, i32::MAX as int) is Err,
        pids_in(line) == (match pid_on(line) {
            Some(p) => seq![p],
            None => Seq::empty(),
        }),
        pids_in(line.push('\n') + rest) == pids_in(line) + pids_in(rest),
{
    let core = signed_decimal(pid);
    let n: nat = if pid < 0 { (-pid) as nat } else { pid as nat };
    law_shortest_numeral(n);
    assert('0' <= decimal(n)[0] <= '9');
    assert('0' <= decimal(n)[decimal(n).len() - 1] <= '9');
    assert(core[core.len() - 1] == decimal(n)[decimal(n).len() - 1]);
    law_trim_leaves_the_core(before, core, after);
    law_numeral_round_trip(pid, i32::MIN as int, i32::MAX as int);
    let sep = Separator::Line.pred();
    let read = |l: Seq<char>| pid_on(l);
    assert forall|i: int| 0 <= i < line.len() implies !sep(#[trigger] line[i]) by {
        assert(line.contains(line[i]));
    }
    lemma_pieces_whole(line, sep);
    lemma_pieces_part(line, '\n', rest, sep);
    Seq::lemma_filter_map_singleton(line, read);
    lemma_filter_map_prepend(line, pieces(rest, sep), read);
}

} // verus!
