//! The operator console: parsing one line of input into a command, and
//! the pause/resume state machine the commands drive. The `sell` verb
//! pauses new selling, as the operators use it; `pause` is accepted as an
//! unambiguous alias.

use vstd::prelude::*;
use vstd::string::StringSliceAdditionalSpecFns;

verus! {

/// One parsed operator command.
#[derive(Debug, Clone, Copy, PartialEq, Eq, Structural)]
pub enum Command {
    /// Report liveness; no state change.
    Status,
    /// Stop submitting new sells until resumed.
    PauseSelling,
    /// Clear the pause flag.
    Resume,
    /// Terminate the whole process at once, abandoning in-flight work.
    Exit,
    /// Anything unrecognized: answered visibly, no state change.
    Unknown,
    /// An empty line: ignored.
    Blank,
}

/// The bytes of the verb "status".
pub open spec fn status_verb() -> Seq<u8> {
    seq![115u8, 116u8, 97u8, 116u8, 117u8, 115u8]
}

/// The bytes of the verb "sell".
pub open spec fn sell_verb() -> Seq<u8> {
    seq![115u8, 101u8, 108u8, 108u8]
}

/// The bytes of the verb "pause".
pub open spec fn pause_verb() -> Seq<u8> {
    seq![112u8, 97u8, 117u8, 115u8, 101u8]
}

/// The bytes of the verb "resume".
pub open spec fn resume_verb() -> Seq<u8> {
    seq![114u8, 101u8, 115u8, 117u8, 109u8, 101u8]
}

/// The bytes of the verb "exit".
pub open spec fn exit_verb() -> Seq<u8> {
    seq![101u8, 120u8, 105u8, 116u8]
}

/// The command one line of input carries, by its bytes.
pub open spec fn spec_parse_command(bytes: Seq<u8>) -> Command {
    if bytes.len() == 0 {
        Command::Blank
    } else if bytes == status_verb() {
        Command::Status
    } else if bytes == sell_verb() || bytes == pause_verb() {
        Command::PauseSelling
    } else if bytes == resume_verb() {
        Command::Resume
    } else if bytes == exit_verb() {
        Command::Exit
    } else {
        Command::Unknown
    }
}

fn matches_verb(bs: &[u8], verb: &Vec<u8>) -> (r: bool)
    ensures
        r <==> bs@ == verb@,
{
    crate::types::eq_bytes(bs, verb.as_slice())
}

fn verb_vec_status() -> (r: Vec<u8>)
    ensures
        r@ =~= status_verb(),
{
    let mut v: Vec<u8> = Vec::new();
    v.push(115u8);
    v.push(116u8);
    v.push(97u8);
    v.push(116u8);
    v.push(117u8);
    v.push(115u8);
    v
}

fn verb_vec_sell() -> (r: Vec<u8>)
    ensures
        r@ =~= sell_verb(),
{
    let mut v: Vec<u8> = Vec::new();
    v.push(115u8);
    v.push(101u8);
    v.push(108u8);
    v.push(108u8);
    v
}

fn verb_vec_pause() -> (r: Vec<u8>)
    ensures
        r@ =~= pause_verb(),
{
    let mut v: Vec<u8> = Vec::new();
    v.push(112u8);
    v.push(97u8);
    v.push(117u8);
    v.push(115u8);
    v.push(101u8);
    v
}

fn verb_vec_resume() -> (r: Vec<u8>)
    ensures
        r@ =~= resume_verb(),
{
    let mut v: Vec<u8> = Vec::new();
    v.push(114u8);
    v.push(101u8);
    v.push(115u8);
    v.push(117u8);
    v.push(109u8);
    v.push(101u8);
    v
}

fn verb_vec_exit() -> (r: Vec<u8>)
    ensures
        r@ =~= exit_verb(),
{
    let mut v: Vec<u8> = Vec::new();
    v.push(101u8);
    v.push(120u8);
    v.push(105u8);
    v.push(116u8);
    v
}

/// Parses one trimmed line of operator input.
pub fn parse_command(line: &str) -> (r: Command)
    ensures
        r == spec_parse_command(line.spec_bytes()),
{
    let bs = line.as_bytes();
    if bs.len() == 0 {
        return Command::Blank;
    }
    if matches_verb(bs, &verb_vec_status()) {
        return Command::Status;
    }
    if matches_verb(bs, &verb_vec_sell()) {
        return Command::PauseSelling;
    }
    if matches_verb(bs, &verb_vec_pause()) {
        return Command::PauseSelling;
    }
    if matches_verb(bs, &verb_vec_resume()) {
        return Command::Resume;
    }
    if matches_verb(bs, &verb_vec_exit()) {
        return Command::Exit;
    }
    Command::Unknown
}

/// The process-wide control state the console drives: a single pause flag,
/// written only by the console and read by the seller before each sell.
#[derive(Debug, Clone, Copy, PartialEq, Eq, Structural)]
pub struct ControlState {
    pub selling_paused: bool,
}

/// The visible action a command asks the surrounding process to take.
#[derive(Debug, Clone, Copy, PartialEq, Eq, Structural)]
pub enum Effect {
    /// Print that the pipeline is alive.
    ReportStatus,
    /// Announce that new selling is paused.
    AnnouncePaused,
    /// Announce that selling is resumed; deferred items run now.
    AnnounceResumed,
    /// Terminate the process at once, whatever is in flight.
    Terminate,
    /// Answer that the command was not recognized.
    UnknownCommand,
    /// Nothing: the line was blank.
    Ignore,
}

impl ControlState {
    /// Selling starts active.
    pub fn new() -> (r: ControlState)
        ensures
            !r.selling_paused,
    {
        ControlState { selling_paused: false }
    }
}

/// Applies one command: the only transitions are pause and resume, exit
/// terminates from any state, and everything else leaves the state alone.
pub fn apply_command(state: &mut ControlState, cmd: Command) -> (e: Effect)
    ensures
        cmd == Command::PauseSelling ==> final(state).selling_paused && e
            == Effect::AnnouncePaused,
        cmd == Command::Resume ==> !final(state).selling_paused && e == Effect::AnnounceResumed,
        cmd == Command::Status ==> *final(state) == *old(state) && e == Effect::ReportStatus,
        cmd == Command::Exit ==> *final(state) == *old(state) && e == Effect::Terminate,
        cmd == Command::Unknown ==> *final(state) == *old(state) && e == Effect::UnknownCommand,
        cmd == Command::Blank ==> *final(state) == *old(state) && e == Effect::Ignore,
{
    match cmd {
        Command::Status => Effect::ReportStatus,
        Command::PauseSelling => {
            state.selling_paused = true;
            Effect::AnnouncePaused
        },
        Command::Resume => {
            state.selling_paused = false;
            Effect::AnnounceResumed
        },
        Command::Exit => Effect::Terminate,
        Command::Unknown => Effect::UnknownCommand,
        Command::Blank => Effect::Ignore,
    }
}

} // verus!
