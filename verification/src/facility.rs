//! The facility: the network around the bridge. It answers probes from the
//! true table of addresses, counts the frames that reach their end, and
//! calls the shutdown when all of them have.

use crate::bridge::{Command, Event};
use crate::model::{Address, Segment};
use std::collections::BTreeMap;
use vstd::prelude::*;

verus! {

broadcast use vstd::laws_cmp::group_laws_cmp;

/// Meter to count facility statistics within some time.
#[derive(Debug, Copy, Clone, PartialEq, Eq)]
pub struct FacilityMeter {
    pub s_cnt: usize,
    pub f_cnt: usize,
    pub dp_cnt: usize,
    pub dc_cnt: usize,
}

impl FacilityMeter {
    /// A meter with every count at zero.
    pub fn new() -> (m: Self)
        ensures
            m == (FacilityMeter { s_cnt: 0, f_cnt: 0, dp_cnt: 0, dc_cnt: 0 }),
    {
        FacilityMeter { s_cnt: 0, f_cnt: 0, dp_cnt: 0, dc_cnt: 0 }
    }

    /// Whether every count can still grow by one.
    pub open spec fn has_room(&self) -> bool {
        self.s_cnt < usize::MAX && self.f_cnt < usize::MAX && self.dp_cnt < usize::MAX
            && self.dc_cnt < usize::MAX
    }

    /// Count one probe that was answered with a segment.
    pub fn inc_success(&mut self)
        requires
            old(self).s_cnt < usize::MAX,
        ensures
            *final(self) == (FacilityMeter { s_cnt: (old(self).s_cnt + 1) as usize, ..*old(self) }),
    {
        self.s_cnt += 1;
    }

    /// Count one probe that found no segment.
    pub fn inc_failure(&mut self)
        requires
            old(self).f_cnt < usize::MAX,
        ensures
            *final(self) == (FacilityMeter { f_cnt: (old(self).f_cnt + 1) as usize, ..*old(self) }),
    {
        self.f_cnt += 1;
    }

    /// Count one dispatched frame.
    pub fn inc_dispatch(&mut self)
        requires
            old(self).dp_cnt < usize::MAX,
        ensures
            *final(self) == (FacilityMeter {
                dp_cnt: (old(self).dp_cnt + 1) as usize,
                ..*old(self)
            }),
    {
        self.dp_cnt += 1;
    }

    /// Count one discarded frame.
    pub fn inc_discard(&mut self)
        requires
            old(self).dc_cnt < usize::MAX,
        ensures
            *final(self) == (FacilityMeter {
                dc_cnt: (old(self).dc_cnt + 1) as usize,
                ..*old(self)
            }),
    {
        self.dc_cnt += 1;
    }

    /// Hand out the counts and start again from zero.
    pub fn report(&mut self) -> (r: FacilityMeter)
        ensures
            r == *old(self),
            *final(self) == (FacilityMeter { s_cnt: 0, f_cnt: 0, dp_cnt: 0, dc_cnt: 0 }),
    {
        let r = *self;
        self.s_cnt = 0;
        self.f_cnt = 0;
        self.dp_cnt = 0;
        self.dc_cnt = 0;
        r
    }
}

/// The table that pairs of address and segment make, a later pair for an
/// address taking the place of an earlier one.
pub open spec fn table_of(pairs: Seq<(Address, Segment)>) -> Map<u32, Segment>
    decreases pairs.len(),
{
    if pairs.len() == 0 {
        Map::empty()
    } else {
        table_of(pairs.drop_last()).insert(pairs.last().0.spec_key(), pairs.last().1)
    }
}

/// What the facility knows between two commands.
pub struct FacilityState {
    /// The number of frames whose end is awaited.
    pub count: usize,
    /// The true segment of each address, by the key of the address.
    pub truth: Map<u32, Segment>,
    /// The number of frames that were dispatched or discarded so far.
    pub ended: usize,
    /// The counts since the last report.
    pub meter: FacilityMeter,
}

/// The number of ended frames after a command.
pub open spec fn ended_after(st: FacilityState, cmd: Command) -> int {
    match cmd {
        Command::Broadcast(_) => st.ended as int,
        _ => st.ended + 1,
    }
}

/// Whether a command is the one after which every awaited frame has ended.
pub open spec fn completes(st: FacilityState, cmd: Command) -> bool {
    ended_after(st, cmd) == st.count
}

/// The answer to a probe: the segment of the address in the true table, or
/// a failure where the table has none.
pub open spec fn answer(truth: Map<u32, Segment>, addr: Address) -> Event {
    if truth.contains_key(addr.spec_key()) {
        Event::Success(addr, truth[addr.spec_key()])
    } else {
        Event::Failure(addr)
    }
}

/// The events that the facility sends for one command, in order: the
/// answer to a probe, and the shutdown after the command that completes
/// the run.
pub open spec fn replies(st: FacilityState, cmd: Command) -> Seq<Event> {
    let first = match cmd {
        Command::Broadcast(addr) => seq![answer(st.truth, addr)],
        _ => Seq::empty(),
    };
    if completes(st, cmd) {
        first.push(Event::Shutdown)
    } else {
        first
    }
}

/// The meter after one command.
pub open spec fn metered(st: FacilityState, cmd: Command) -> FacilityMeter {
    match cmd {
        Command::Broadcast(addr) => if st.truth.contains_key(addr.spec_key()) {
            FacilityMeter { s_cnt: (st.meter.s_cnt + 1) as usize, ..st.meter }
        } else {
            FacilityMeter { f_cnt: (st.meter.f_cnt + 1) as usize, ..st.meter }
        },
        Command::Dispatch(_, _) => FacilityMeter {
            dp_cnt: (st.meter.dp_cnt + 1) as usize,
            ..st.meter
        },
        Command::Discard(_) => FacilityMeter { dc_cnt: (st.meter.dc_cnt + 1) as usize, ..st.meter },
    }
}

/// The state after one command.
pub open spec fn after_command(st: FacilityState, cmd: Command) -> FacilityState {
    FacilityState {
        count: st.count,
        truth: st.truth,
        ended: ended_after(st, cmd) as usize,
        meter: metered(st, cmd),
    }
}

/// The facility between two commands.
pub struct Facility {
    count: usize,
    mapping: BTreeMap<u32, Segment>,
    cur_n: usize,
    meter: FacilityMeter,
}

impl View for Facility {
    type V = FacilityState;

    closed spec fn view(&self) -> FacilityState {
        FacilityState {
            count: self.count,
            truth: self.mapping@,
            ended: self.cur_n,
            meter: self.meter,
        }
    }
}

impl Facility {
    /// The state of a facility that has taken no command.
    pub open spec fn spec_new(count: usize, pairs: Seq<(Address, Segment)>) -> FacilityState {
        FacilityState {
            count,
            truth: table_of(pairs),
            ended: 0,
            meter: FacilityMeter { s_cnt: 0, f_cnt: 0, dp_cnt: 0, dc_cnt: 0 },
        }
    }

    /// A facility that awaits the end of `count` frames and answers probes
    /// from the pairs given.
    pub fn new(count: usize, mapping: &Vec<(Address, Segment)>) -> (f: Self)
        ensures
            f@ == Facility::spec_new(count, mapping@),
    {
        let mut table: BTreeMap<u32, Segment> = BTreeMap::new();
        let n: usize = mapping.len();
        let mut i: usize = 0;
        while i < n
            invariant
                i <= n,
                n == mapping@.len(),
                table@ == table_of(mapping@.take(i as int)),
            decreases n - i,
        {
            let pair: (Address, Segment) = mapping[i];
            table.insert(pair.0.key(), pair.1);
            i += 1;
            assert(mapping@.take(i as int).drop_last() =~= mapping@.take(i - 1));
        }
        assert(mapping@.take(n as int) =~= mapping@);
        Facility { count, mapping: table, cur_n: 0, meter: FacilityMeter::new() }
    }

    /// Whether the facility can count one more command of any kind.
    pub open spec fn has_room(&self) -> bool {
        self@.meter.has_room() && self@.ended < usize::MAX
    }

    /// Whether the facility can count one more command of any kind.
    pub fn can_step(&self) -> (b: bool)
        ensures
            b == self.has_room(),
    {
        self.meter.s_cnt < usize::MAX && self.meter.f_cnt < usize::MAX && self.meter.dp_cnt
            < usize::MAX && self.meter.dc_cnt < usize::MAX && self.cur_n < usize::MAX
    }

    /// The number of frames that were dispatched or discarded so far.
    pub fn ended(&self) -> (n: usize)
        ensures
            n == self@.ended,
    {
        self.cur_n
    }

    /// Hand out the meter's counts and start them again from zero.
    pub fn report(&mut self) -> (r: FacilityMeter)
        ensures
            r == old(self)@.meter,
            final(self)@ == (FacilityState {
                meter: FacilityMeter { s_cnt: 0, f_cnt: 0, dp_cnt: 0, dc_cnt: 0 },
                ..old(self)@
            }),
    {
        self.meter.report()
    }

    /// Take one command of the bridge and hand back the events to send, in
    /// order. The last of them is the shutdown exactly where this command
    /// completes the run; the facility is to take no command after that.
    pub fn step(&mut self, command: Command) -> (out: Vec<Event>)
        requires
            old(self).has_room(),
        ensures
            out@ == replies(old(self)@, command),
            final(self)@ == after_command(old(self)@, command),
    {
        let mut out: Vec<Event> = Vec::new();
        match command {
            Command::Broadcast(addr) => {
                let k: u32 = addr.key();
                let found: Option<Segment> = match self.mapping.get(&k) {
                    Some(s) => Some(*s),
                    None => None,
                };
                match found {
                    Some(segment) => {
                        out.push(Event::Success(addr, segment));
                        self.meter.inc_success();
                    },
                    None => {
                        out.push(Event::Failure(addr));
                        self.meter.inc_failure();
                    },
                }
            },
            Command::Dispatch(_, _) => {
                self.meter.inc_dispatch();
                self.cur_n += 1;
            },
            Command::Discard(_) => {
                self.meter.inc_discard();
                self.cur_n += 1;
            },
        }
        if self.cur_n == self.count {
            out.push(Event::Shutdown);
        }
        assert(out@ =~= replies(old(self)@, command));
        out
    }
}

/// Whether the facility stops behind a command: the command completes the
/// run.
pub open spec fn stops_at(st: FacilityState, commands: Seq<Command>, i: int) -> bool {
    completes(served(st, commands.take(i)), commands[i])
}

/// The state after the commands given, each taken in turn.
pub open spec fn served(st: FacilityState, commands: Seq<Command>) -> FacilityState
    decreases commands.len(),
{
    if commands.len() == 0 {
        st
    } else {
        after_command(served(st, commands.drop_last()), commands.last())
    }
}

/// The events sent for the commands given, each taken in turn.
pub open spec fn served_replies(st: FacilityState, commands: Seq<Command>) -> Seq<Event>
    decreases commands.len(),
{
    if commands.len() == 0 {
        Seq::empty()
    } else {
        served_replies(st, commands.drop_last()) + replies(
            served(st, commands.drop_last()),
            commands.last(),
        )
    }
}

/// Facilitation service that handle commands from the bridge: the
/// commands are taken in order up to and with the one that completes the
/// run, and the events for them are handed back in order, with the number
/// of commands taken.
pub fn facility(count: usize, mapping: &Vec<(Address, Segment)>, commands: &Vec<Command>) -> (out:
    (Vec<Event>, usize))
    ensures
        out.1 <= commands@.len(),
        forall|i: int|
            0 <= i < out.1 - 1 ==> !stops_at(Facility::spec_new(count, mapping@), commands@, i),
        out.1 < commands@.len() ==> out.1 > 0 && stops_at(
            Facility::spec_new(count, mapping@),
            commands@,
            out.1 - 1,
        ),
        out.0@ == served_replies(
            Facility::spec_new(count, mapping@),
            commands@.take(out.1 as int),
        ),
{
    let mut f = Facility::new(count, mapping);
    let ghost st0 = f@;
    let mut out: Vec<Event> = Vec::new();
    let n: usize = commands.len();
    let mut i: usize = 0;
    let mut done: bool = false;
    while i < n && !done
        invariant
            i <= n,
            n == commands@.len(),
            st0 == Facility::spec_new(count, mapping@),
            f@ == served(st0, commands@.take(i as int)),
            out@ == served_replies(st0, commands@.take(i as int)),
            f@.meter.s_cnt + f@.meter.f_cnt + f@.meter.dp_cnt + f@.meter.dc_cnt == i,
            f@.ended <= i,
            f@.count == count,
            done ==> i > 0 && stops_at(st0, commands@, i - 1),
            forall|j: int| 0 <= j < i - 1 ==> !stops_at(st0, commands@, j),
            !done && i > 0 ==> !stops_at(st0, commands@, i - 1),
        decreases n - i,
    {
        let mut events = f.step(commands[i]);
        done = f.ended() == count;
        proof {
            assert(commands@.take(i + 1).drop_last() =~= commands@.take(i as int));
            assert(commands@.take(i + 1).last() == commands@[i as int]);
        }
        out.append(&mut events);
        i += 1;
    }
    (out, i)
}

} // verus!
