//! The connection to the foreground service, and what an event asks for.

use crate::lines::{names_in, rest_of, LineBuffer};
use crate::lossy::read_text;
use crate::readiness::{same_token, Readiness};
use crate::text::texts;
use coreshift_core::reactor::Token;
use vstd::prelude::*;

verus! {

/// The nanoseconds between two attempts to connect: five seconds.
pub const RETRY_NS: u128 = 5_000_000_000;

/// The milliseconds that a connection in progress is given.
pub const SETTLE_MS: u64 = 200;

/// What came of a step of connecting.
#[derive(Clone, Copy, Debug, PartialEq, Eq, Structural)]
pub enum LinkEvent {
    /// There is a connection.
    Connected,
    /// There will be one later.
    InProgress,
    /// There is none.
    Failed,
    /// The connection in progress was completed, or not.
    Finished(bool),
    /// The service was asked to tell of changes, or could not be.
    Asked(bool),
    /// The connection is watched, or could not be.
    Added(bool),
}

/// A step of connecting.
#[derive(Clone, Copy, Debug, PartialEq, Eq, Structural)]
pub enum LinkStep {
    /// Complete the connection in progress after this many milliseconds.
    Finish(u64),
    /// Ask the service to tell of changes.
    Ask,
    /// Watch the connection.
    Add,
    /// The connection stands.
    Up,
    /// There is no connection.
    Down,
}

/// The step of connecting that follows.
pub open spec fn next_step(event: LinkEvent) -> LinkStep {
    match event {
        LinkEvent::Connected => LinkStep::Ask,
        LinkEvent::InProgress => LinkStep::Finish(SETTLE_MS),
        LinkEvent::Failed => LinkStep::Down,
        LinkEvent::Finished(done) => if done {
            LinkStep::Ask
        } else {
            LinkStep::Down
        },
        LinkEvent::Asked(done) => if done {
            LinkStep::Add
        } else {
            LinkStep::Down
        },
        LinkEvent::Added(done) => if done {
            LinkStep::Up
        } else {
            LinkStep::Down
        },
    }
}

/// The step of connecting that follows.
pub fn fg_connect(event: LinkEvent) -> (r: LinkStep)
    ensures
        r == next_step(event),
{
    match event {
        LinkEvent::Connected | LinkEvent::Finished(true) => LinkStep::Ask,
        LinkEvent::InProgress => LinkStep::Finish(SETTLE_MS),
        LinkEvent::Asked(true) => LinkStep::Add,
        LinkEvent::Added(true) => LinkStep::Up,
        _ => LinkStep::Down,
    }
}

/// The connection to the foreground service.
#[derive(Debug)]
pub struct Link {
    /// It stands.
    pub up: bool,
    /// The moment of the last attempt to connect or of the loss of the connection.
    pub since: u128,
    /// What came over it and is not yet a complete line.
    pub lines: LineBuffer,
}

impl Link {
    /// The connection after the first attempt.
    pub fn new(up: bool, now: u128) -> (r: Link)
        ensures
            r.up == up,
            r.since == now,
            r.lines.rest@ == Seq::<char>::empty(),
    {
        Link { up, since: now, lines: LineBuffer::new() }
    }

    /// Another attempt to connect is due: there is no connection, and the last attempt, or the
    /// loss, is long enough ago.
    pub open spec fn due(self, now: u128) -> bool {
        !self.up && now - self.since >= RETRY_NS
    }

    /// Whether another attempt to connect is due.
    pub fn retry_due(&self, now: u128) -> (r: bool)
        ensures
            r == self.due(now),
            r <==> !self.up && now >= self.since + 5_000_000_000,
    {
        !self.up && now >= self.since && now - self.since >= RETRY_NS
    }

    /// Takes in how an attempt to connect ended.
    pub fn tried(&mut self, up: bool, now: u128)
        ensures
            final(self).up == up,
            final(self).since == now,
            final(self).lines == old(self).lines,
    {
        self.up = up;
        self.since = now;
    }

    /// The connection is lost, and with it what had come of an incomplete line.
    pub fn lost(&mut self, now: u128)
        ensures
            !final(self).up,
            final(self).since == now,
            final(self).lines.rest@ == Seq::<char>::empty(),
    {
        self.up = false;
        self.since = now;
        self.lines.clear();
    }

    /// Takes in bytes that came over the connection.
    pub fn received(&mut self, chunk: &[u8])
        ensures
            final(self).up == old(self).up,
            final(self).since == old(self).since,
            final(self).lines.rest@ == old(self).lines.rest@ + read_text(chunk@),
    {
        self.lines.push_bytes(chunk);
    }

    /// The packages that came to the foreground, in order: each is to be relieved at once.
    pub fn foregrounds(&mut self) -> (r: Vec<String>)
        ensures
            final(self).up == old(self).up,
            final(self).since == old(self).since,
            texts(r@) == names_in(old(self).lines.rest@),
            final(self).lines.rest@ == rest_of(old(self).lines.rest@),
    {
        self.lines.take_names()
    }
}

/// Without a connection, at most one attempt to make one falls into any five seconds: none is due
/// until five seconds after the last attempt, or after the loss of the connection.
pub proof fn law_attempts_are_spaced(link: Link, now: u128)
    ensures
        link.due(now) ==> !link.up && now >= link.since + RETRY_NS,
        !link.up && now >= link.since + RETRY_NS ==> link.due(now),
{
}

/// What an event asks for of the connection to the foreground service.
#[derive(Clone, Copy, Debug, PartialEq, Eq, Structural)]
pub enum FgReaction {
    /// Nothing.
    Nothing,
    /// It is lost: nothing else is asked for.
    Lost,
    /// To be read.
    Read,
}

/// What an event asks for.
#[derive(Clone, Copy, Debug, PartialEq, Eq, Structural)]
pub struct Due {
    pub foreground: FgReaction,
    /// To look at the idle state.
    pub idle: bool,
    /// To tick.
    pub timer: bool,
}

/// What an event asks for, of the handles of the connection to the foreground service where it
/// stands, of word of the idle state, and of the timer.
pub open spec fn due_for(
    event: Readiness,
    foreground: Option<Token>,
    idle: Token,
    timer: Token,
) -> Due {
    if foreground == Some(event.token) && event.gone() {
        Due { foreground: FgReaction::Lost, idle: false, timer: false }
    } else {
        Due {
            foreground: if foreground == Some(event.token) {
                FgReaction::Read
            } else {
                FgReaction::Nothing
            },
            idle: event.token == idle,
            timer: event.token == timer,
        }
    }
}

/// What an event asks for, of the handles of the connection to the foreground service where it
/// stands, of word of the idle state, and of the timer.
pub fn on_event(event: &Readiness, foreground: Option<Token>, idle: Token, timer: Token) -> (r:
    Due)
    ensures
        r == due_for(*event, foreground, idle, timer),
        r.foreground == FgReaction::Nothing <==> foreground != Some(event.token),
        r.foreground == FgReaction::Lost <==> foreground == Some(event.token) && (event.hangup
            || event.error),
        r.idle <==> event.token == idle && r.foreground != FgReaction::Lost,
        r.timer <==> event.token == timer && r.foreground != FgReaction::Lost,
{
    let ours: bool = match foreground {
        Some(token) => same_token(event.token, token),
        None => false,
    };
    if ours && (event.hangup || event.error) {
        return Due { foreground: FgReaction::Lost, idle: false, timer: false };
    }
    let asked: FgReaction = if ours {
        FgReaction::Read
    } else {
        FgReaction::Nothing
    };
    Due {
        foreground: asked,
        idle: same_token(event.token, idle),
        timer: same_token(event.token, timer),
    }
}

/// The path of the list of applications that the watchdog spares.
pub fn whitelist_path(data_dir: &str) -> (r: String)
    ensures
        r@ == data_dir@ + "/watchdog_whitelist.conf"@,
{
    let mut path: String = data_dir.to_string();
    path.append("/watchdog_whitelist.conf");
    path
}

/// The path of the list of terminal applications.
pub fn terminal_apps_path(data_dir: &str) -> (r: String)
    ensures
        r@ == data_dir@ + "/terminal_apps.conf"@,
{
    let mut path: String = data_dir.to_string();
    path.append("/terminal_apps.conf");
    path
}

/// Whether the connection to the foreground service stands or not, an event of the timer's handle
/// asks for a tick and one of the idle handle for a look at the idle state. Only the loss of the
/// connection by the same event keeps them from it.
pub proof fn law_ticks_without_a_connection(
    event: Readiness,
    foreground: Option<Token>,
    idle: Token,
    timer: Token,
)
    ensures
        foreground != Some(event.token) ==> {
            &&& due_for(event, foreground, idle, timer).timer == (event.token == timer)
            &&& due_for(event, foreground, idle, timer).idle == (event.token == idle)
            &&& due_for(event, foreground, idle, timer).foreground == FgReaction::Nothing
            &&& due_for(event, foreground, idle, timer) == due_for(event, None, idle, timer)
        },
        foreground == Some(event.token) && !event.error && !event.hangup ==> {
            &&& due_for(event, foreground, idle, timer).timer == (event.token == timer)
            &&& due_for(event, foreground, idle, timer).idle == (event.token == idle)
            &&& due_for(event, foreground, idle, timer).foreground == FgReaction::Read
        },
        foreground == Some(event.token) && (event.error || event.hangup) ==> {
            &&& due_for(event, foreground, idle, timer).foreground == FgReaction::Lost
            &&& !due_for(event, foreground, idle, timer).timer
            &&& !due_for(event, foreground, idle, timer).idle
        },
{
}

/// A connection stands only once it was made or completed, the service was asked and the connection
/// is watched, in this order; whatever fails leaves no connection.
pub proof fn law_a_connection_stands_last(event: LinkEvent)
    ensures
        next_step(event) == LinkStep::Up <==> event == LinkEvent::Added(true),
        next_step(event) == LinkStep::Add <==> event == LinkEvent::Asked(true),
        next_step(event) == LinkStep::Ask <==> event == LinkEvent::Connected || event
            == LinkEvent::Finished(true),
        next_step(event) is Finish <==> event == LinkEvent::InProgress,
        next_step(event) matches LinkStep::Finish(ms) ==> ms == 200,
{
}

/// Without a connection an attempt is due exactly from five seconds on after the last, and stays
/// due; with one, none ever is.
pub proof fn law_due_from_five_seconds_on(link: Link, now: u128, later: u128)
    requires
        now <= later,
    ensures
        link.due(now) <==> !link.up && now >= link.since + 5_000_000_000,
        link.due(now) ==> link.due(later),
{
}

} // verus!
