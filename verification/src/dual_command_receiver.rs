//! The client's record of the commands it has issued. Each command is handed
//! to the application once when it is sent, and kept in its pawn's history;
//! when the server's state for a pawn arrives, the commands issued after
//! that state's tick are handed out again for replay and the older ones are
//! dropped.

use crate::config::COMMAND_HISTORY_SIZE;
use crate::keys::{lemma_pawn_position, pawn_position, PawnKey};
use crate::replicate_manager::{pawns_reset, ReplicateManager};
use crate::sequence::{greater_than, sequence_greater_than};
use crate::variant::{Variant, VariantView};
use vstd::prelude::*;

verus! {

/// A command with the tick at which it was issued and its pawn.
pub struct TickedCommand {
    pub tick: u16,
    pub pawn_key: PawnKey,
    pub command: Variant,
}

/// A command in a pawn's history.
pub struct HistoryEntry {
    pub tick: u16,
    pub command: Variant,
}

/// The history of one pawn, oldest command first.
pub struct PawnHistory {
    pub pawn_key: PawnKey,
    pub commands: Vec<HistoryEntry>,
}

/// A request to replay a pawn's commands issued after `tick`.
#[derive(Clone, Copy, PartialEq, Eq, Debug, Structural)]
pub struct ReplayTrigger {
    pub pawn_key: PawnKey,
    pub tick: u16,
}

/// A history as ticks and commands.
pub type History = Seq<(u16, VariantView)>;

/// The abstract state of the receiver.
pub struct CommandsView {
    /// The commands to hand to the application as new, oldest first.
    pub incoming: Seq<(u16, PawnKey, VariantView)>,
    /// The commands to hand to the application for replay, oldest first.
    pub replays: Seq<(u16, PawnKey, VariantView)>,
    /// The history of each pawn that has one.
    pub histories: Seq<(PawnKey, History)>,
    /// The replays asked for and not yet prepared.
    pub triggers: Seq<(PawnKey, u16)>,
}

pub open spec fn ticked_view(list: Seq<TickedCommand>) -> Seq<(u16, PawnKey, VariantView)> {
    Seq::new(list.len(), |i: int| (list[i].tick, list[i].pawn_key, list[i].command@))
}

pub open spec fn history_view(list: Seq<HistoryEntry>) -> History {
    Seq::new(list.len(), |i: int| (list[i].tick, list[i].command@))
}

pub open spec fn histories_view(list: Seq<PawnHistory>) -> Seq<(PawnKey, History)> {
    Seq::new(list.len(), |i: int| (list[i].pawn_key, history_view(list[i].commands@)))
}

pub open spec fn triggers_view(list: Seq<ReplayTrigger>) -> Seq<(PawnKey, u16)> {
    Seq::new(list.len(), |i: int| (list[i].pawn_key, list[i].tick))
}

/// A history with one more command; the oldest one leaves where the history
/// is full.
pub open spec fn history_pushed(h: History, tick: u16, command: VariantView) -> History {
    let longer = h.push((tick, command));
    if longer.len() > COMMAND_HISTORY_SIZE {
        longer.drop_first()
    } else {
        longer
    }
}

/// The commands of a history that were issued after `tick`, in order.
pub open spec fn history_after(h: History, tick: u16) -> History
    decreases h.len(),
{
    if h.len() == 0 {
        Seq::empty()
    } else {
        let front = history_after(h.drop_last(), tick);
        if greater_than(h.last().0, tick) {
            front.push(h.last())
        } else {
            front
        }
    }
}

/// The state after a command has been issued for `pawn_key` at `tick`: it
/// is to be handed out as new, and joins the pawn's history if the pawn has
/// one.
pub open spec fn command_queued(
    c: CommandsView,
    tick: u16,
    pawn_key: PawnKey,
    command: VariantView,
) -> CommandsView {
    let at = pawn_position(c.histories, pawn_key);
    CommandsView {
        incoming: c.incoming.push((tick, pawn_key, command)),
        histories: if at < c.histories.len() {
            c.histories.update(at, (pawn_key, history_pushed(c.histories[at].1, tick, command)))
        } else {
            c.histories
        },
        ..c
    }
}

/// The state after `pawn_key` became a pawn: it has an empty history.
pub open spec fn pawn_initialized(c: CommandsView, pawn_key: PawnKey) -> CommandsView {
    let at = pawn_position(c.histories, pawn_key);
    CommandsView {
        histories: if at < c.histories.len() {
            c.histories.update(at, (pawn_key, Seq::empty()))
        } else {
            c.histories.push((pawn_key, Seq::empty()))
        },
        ..c
    }
}

/// The state after `pawn_key` ceased to be a pawn: it has no history.
pub open spec fn pawn_cleaned(c: CommandsView, pawn_key: PawnKey) -> CommandsView {
    let at = pawn_position(c.histories, pawn_key);
    CommandsView {
        histories: if at < c.histories.len() {
            c.histories.remove(at)
        } else {
            c.histories
        },
        ..c
    }
}

/// The state after the server's state of `pawn_key` at `tick` arrived: a
/// replay from that tick is asked for, or from the newer tick if one was
/// asked for already.
pub open spec fn replay_requested(c: CommandsView, tick: u16, pawn_key: PawnKey) -> CommandsView {
    let at = pawn_position(c.triggers, pawn_key);
    CommandsView {
        triggers: if at < c.triggers.len() {
            if greater_than(tick, c.triggers[at].1) {
                c.triggers.update(at, (pawn_key, tick))
            } else {
                c.triggers
            }
        } else {
            c.triggers.push((pawn_key, tick))
        },
        ..c
    }
}

/// The state after the history of `pawn_key` lost the commands issued at
/// `tick` or before.
pub open spec fn history_trimmed(c: CommandsView, tick: u16, pawn_key: PawnKey) -> CommandsView {
    let at = pawn_position(c.histories, pawn_key);
    CommandsView {
        histories: if at < c.histories.len() {
            c.histories.update(at, (pawn_key, history_after(c.histories[at].1, tick)))
        } else {
            c.histories
        },
        ..c
    }
}

/// The commands of a history as replays for `pawn_key`.
pub open spec fn as_replays(h: History, pawn_key: PawnKey) -> Seq<(u16, PawnKey, VariantView)> {
    Seq::new(h.len(), |i: int| (h[i].0, pawn_key, h[i].1))
}

/// The histories and the replays after each request of a list has been
/// served in order: the pawn's history keeps the commands issued after the
/// request's tick, and these join the replays.
pub open spec fn replays_gathered(
    histories: Seq<(PawnKey, History)>,
    replays: Seq<(u16, PawnKey, VariantView)>,
    triggers: Seq<(PawnKey, u16)>,
) -> (Seq<(PawnKey, History)>, Seq<(u16, PawnKey, VariantView)>)
    decreases triggers.len(),
{
    if triggers.len() == 0 {
        (histories, replays)
    } else {
        let pawn_key = triggers[0].0;
        let at = pawn_position(histories, pawn_key);
        if at < histories.len() {
            let kept = history_after(histories[at].1, triggers[0].1);
            replays_gathered(
                histories.update(at, (pawn_key, kept)),
                replays + as_replays(kept, pawn_key),
                triggers.drop_first(),
            )
        } else {
            replays_gathered(histories, replays, triggers.drop_first())
        }
    }
}

/// The state after the replays asked for have been prepared. Where any was
/// asked for, what waited to be handed out is dropped: the replays take its
/// place.
pub open spec fn replays_prepared(c: CommandsView) -> CommandsView {
    if c.triggers.len() == 0 {
        c
    } else {
        let gathered = replays_gathered(c.histories, Seq::empty(), c.triggers);
        CommandsView {
            incoming: Seq::empty(),
            replays: gathered.1,
            histories: gathered.0,
            triggers: Seq::empty(),
        }
    }
}

/// Replacing the value of the first pair for a pawn leaves every pawn's
/// position as it was.
pub proof fn lemma_position_after_update<V>(list: Seq<(PawnKey, V)>, pawn_key: PawnKey, value: V)
    requires
        pawn_position(list, pawn_key) < list.len(),
    ensures
        pawn_position(list.update(pawn_position(list, pawn_key), (pawn_key, value)), pawn_key)
            == pawn_position(list, pawn_key),
    decreases list.len(),
{
    let at = pawn_position(list, pawn_key);
    lemma_pawn_position(list, pawn_key);
    let updated = list.update(at, (pawn_key, value));
    if list[0].0 == pawn_key {
    } else {
        lemma_pawn_position(list.drop_first(), pawn_key);
        lemma_position_after_update(list.drop_first(), pawn_key, value);
        assert(updated.drop_first() =~= list.drop_first().update(at - 1, (pawn_key, value)));
        assert(updated[0] == list[0]);
    }
}

/// The state that a list of replays leaves, when each replay is applied to
/// the state by `apply`.
pub open spec fn replayed<S>(
    apply: spec_fn(S, (u16, PawnKey, VariantView)) -> S,
    state: S,
    replays: Seq<(u16, PawnKey, VariantView)>,
) -> S
    decreases replays.len(),
{
    if replays.len() == 0 {
        state
    } else {
        replayed(apply, apply(state, replays[0]), replays.drop_first())
    }
}

/// Replaying is pure: the replays that are prepared depend on the
/// histories and the requests alone, so that the same commands replayed on
/// the same state of a pawn leave the same state.
pub proof fn lemma_replay_is_pure<S>(
    apply: spec_fn(S, (u16, PawnKey, VariantView)) -> S,
    state: S,
    a: CommandsView,
    b: CommandsView,
)
    requires
        a.histories == b.histories,
        a.triggers == b.triggers,
        a.triggers.len() > 0,
    ensures
        replays_prepared(a).replays == replays_prepared(b).replays,
        replays_prepared(a).histories == replays_prepared(b).histories,
        replayed(apply, state, replays_prepared(a).replays) == replayed(
            apply,
            state,
            replays_prepared(b).replays,
        ),
{
}

/// What is kept of a history after a server state of tick `tick` are the
/// commands issued after that tick, in the order in which they were
/// issued; the commands issued at that tick or before are dropped.
pub proof fn lemma_history_after(h: History, tick: u16)
    ensures
        history_after(h, tick).len() <= h.len(),
        forall|j: int|
            0 <= j < history_after(h, tick).len() ==> greater_than(
                (#[trigger] history_after(h, tick)[j]).0,
                tick,
            ) && h.contains(history_after(h, tick)[j]),
        forall|k: int|
            0 <= k < h.len() && greater_than((#[trigger] h[k]).0, tick) ==> history_after(
                h,
                tick,
            ).contains(h[k]),
    decreases h.len(),
{
    if h.len() > 0 {
        let front = h.drop_last();
        lemma_history_after(front, tick);
        let kept = history_after(h, tick);
        let fk = history_after(front, tick);
        assert forall|j: int| 0 <= j < kept.len() implies greater_than((#[trigger] kept[j]).0, tick)
            && h.contains(kept[j]) by {
            if j < fk.len() {
                assert(kept[j] == fk[j]);
                let k = choose|k: int| 0 <= k < front.len() && front[k] == fk[j];
                assert(h[k] == fk[j]);
            } else {
                assert(kept[j] == h.last());
                assert(h[h.len() - 1] == h.last());
            }
        }
        assert forall|k: int| 0 <= k < h.len() && greater_than((#[trigger] h[k]).0, tick) implies kept.contains(
            h[k],
        ) by {
            if k < front.len() {
                assert(front[k] == h[k]);
                let j = choose|j: int| 0 <= j < fk.len() && fk[j] == front[k];
                assert(kept[j] == fk[j]);
            } else {
                assert(kept[kept.len() - 1] == h.last());
            }
        }
    }
}

/// Handles incoming, local, predicted Commands
pub struct DualCommandReceiver {
    queued_incoming_commands: Vec<TickedCommand>,
    queued_command_replays: Vec<TickedCommand>,
    command_history: Vec<PawnHistory>,
    replay_trigger: Vec<ReplayTrigger>,
}

impl View for DualCommandReceiver {
    type V = CommandsView;

    closed spec fn view(&self) -> CommandsView {
        CommandsView {
            incoming: ticked_view(self.queued_incoming_commands@),
            replays: ticked_view(self.queued_command_replays@),
            histories: histories_view(self.command_history@),
            triggers: triggers_view(self.replay_trigger@),
        }
    }
}

fn find_history(list: &Vec<PawnHistory>, pawn_key: &PawnKey) -> (at: usize)
    ensures
        at == pawn_position(histories_view(list@), *pawn_key),
        at <= list@.len(),
{
    let mut i: usize = 0;
    let ghost whole = histories_view(list@);
    assert(whole.subrange(0, whole.len() as int) =~= whole);
    while i < list.len()
        invariant
            i <= list@.len(),
            whole == histories_view(list@),
            pawn_position(whole, *pawn_key) == i + pawn_position(
                whole.subrange(i as int, whole.len() as int),
                *pawn_key,
            ),
        decreases list@.len() - i,
    {
        let ghost rest = whole.subrange(i as int, whole.len() as int);
        assert(rest[0] == whole[i as int]);
        assert(rest.drop_first() =~= whole.subrange(i + 1, whole.len() as int));
        if list[i].pawn_key == *pawn_key {
            return i;
        }
        i += 1;
    }
    assert(whole.subrange(i as int, whole.len() as int).len() == 0);
    i
}

fn find_trigger(list: &Vec<ReplayTrigger>, pawn_key: &PawnKey) -> (at: usize)
    ensures
        at == pawn_position(triggers_view(list@), *pawn_key),
        at <= list@.len(),
{
    let mut i: usize = 0;
    let ghost whole = triggers_view(list@);
    assert(whole.subrange(0, whole.len() as int) =~= whole);
    while i < list.len()
        invariant
            i <= list@.len(),
            whole == triggers_view(list@),
            pawn_position(whole, *pawn_key) == i + pawn_position(
                whole.subrange(i as int, whole.len() as int),
                *pawn_key,
            ),
        decreases list@.len() - i,
    {
        let ghost rest = whole.subrange(i as int, whole.len() as int);
        assert(rest[0] == whole[i as int]);
        assert(rest.drop_first() =~= whole.subrange(i + 1, whole.len() as int));
        if list[i].pawn_key == *pawn_key {
            return i;
        }
        i += 1;
    }
    assert(whole.subrange(i as int, whole.len() as int).len() == 0);
    i
}

/// The commands of `commands` issued after `tick`, copied in order.
pub fn commands_after(commands: &Vec<HistoryEntry>, tick: u16) -> (kept: Vec<HistoryEntry>)
    ensures
        history_view(kept@) == history_after(history_view(commands@), tick),
        (forall|i: int| 0 <= i < commands@.len() ==> (#[trigger] commands@[i]).command.wf())
            ==> (forall|j: int| 0 <= j < kept@.len() ==> (#[trigger] kept@[j]).command.wf()),
        kept@.len() <= commands@.len(),
{
    let mut kept: Vec<HistoryEntry> = Vec::new();
    let mut i: usize = 0;
    let ghost all = history_view(commands@);
    assert(history_view(kept@) =~= Seq::empty());
    assert(all.subrange(0, 0) =~= Seq::empty());
    while i < commands.len()
        invariant
            i <= commands@.len(),
            all == history_view(commands@),
            history_view(kept@) == history_after(all.subrange(0, i as int), tick),
            kept@.len() <= i,
            forall|j: int|
                0 <= j < kept@.len() ==> exists|k: int|
                    0 <= k < commands@.len() && (#[trigger] kept@[j]).command@
                        == (#[trigger] commands@[k]).command@,
        decreases commands@.len() - i,
    {
        let ghost before = history_view(kept@);
        proof {
            let part = all.subrange(0, i + 1);
            assert(part.drop_last() =~= all.subrange(0, i as int));
            assert(part.last() == all[i as int]);
        }
        if sequence_greater_than(commands[i].tick, tick) {
            let ghost old_kept = kept@;
            kept.push(HistoryEntry { tick: commands[i].tick, command: commands[i].command.copy() });
            assert(history_view(kept@) =~= before.push(all[i as int]));
            assert forall|j: int| 0 <= j < kept@.len() implies exists|k: int|
                0 <= k < commands@.len() && (#[trigger] kept@[j]).command@
                    == (#[trigger] commands@[k]).command@ by {
                if j < old_kept.len() {
                    assert(kept@[j] == old_kept[j]);
                    let k = choose|k: int|
                        0 <= k < commands@.len() && old_kept[j].command@ == (
                        #[trigger] commands@[k]).command@;
                    assert(kept@[j].command@ == commands@[k].command@);
                } else {
                    assert(kept@[j].command@ == commands@[i as int].command@);
                }
            }
        }
        i += 1;
    }
    assert(all.subrange(0, i as int) =~= all);
    proof {
        if forall|i: int| 0 <= i < commands@.len() ==> (#[trigger] commands@[i]).command.wf() {
            assert forall|j: int| 0 <= j < kept@.len() implies (#[trigger] kept@[j]).command.wf() by {
                let k = choose|k: int|
                    0 <= k < commands@.len() && kept@[j].command@ == (
                    #[trigger] commands@[k]).command@;
                assert(commands@[k].command.wf());
            }
        }
    }
    kept
}

impl DualCommandReceiver {
    /// No history is longer than the history size, and every command kept
    /// can be written to the wire.
    pub closed spec fn wf(&self) -> bool {
        forall|i: int|
            0 <= i < self.command_history@.len() ==> (
            #[trigger] self.command_history@[i]).commands@.len() <= COMMAND_HISTORY_SIZE
                && forall|j: int|
                0 <= j < self.command_history@[i].commands@.len() ==> (
                #[trigger] self.command_history@[i].commands@[j]).command.wf()
    }

    /// Creates a new CommandReceiver
    pub fn new() -> (r: Self)
        ensures
            r.wf(),
            r@ == (CommandsView {
                incoming: Seq::empty(),
                replays: Seq::empty(),
                histories: Seq::empty(),
                triggers: Seq::empty(),
            }),
    {
        let r = DualCommandReceiver {
            queued_incoming_commands: Vec::new(),
            queued_command_replays: Vec::new(),
            command_history: Vec::new(),
            replay_trigger: Vec::new(),
        };
        assert(r@.incoming =~= Seq::empty());
        assert(r@.replays =~= Seq::empty());
        assert(r@.histories =~= Seq::empty());
        assert(r@.triggers =~= Seq::empty());
        r
    }

    /// Gets the next queued Command
    pub fn pop_command(&mut self) -> (r: Option<TickedCommand>)
        requires
            old(self).wf(),
        ensures
            final(self).wf(),
            match r {
                Some(c) => old(self)@.incoming.len() > 0 && (c.tick, c.pawn_key, c.command@)
                    == old(self)@.incoming[0] && final(self)@ == (CommandsView {
                    incoming: old(self)@.incoming.drop_first(),
                    ..old(self)@
                }),
                None => old(self)@.incoming.len() == 0 && final(self)@ == old(self)@,
            },
    {
        if self.queued_incoming_commands.len() == 0 {
            return None;
        }
        let c = self.queued_incoming_commands.remove(0);
        assert(self@.incoming =~= old(self)@.incoming.drop_first());
        Some(c)
    }

    /// Gets the next queued Replayed Command
    pub fn pop_command_replay(&mut self) -> (r: Option<TickedCommand>)
        requires
            old(self).wf(),
        ensures
            final(self).wf(),
            match r {
                Some(c) => old(self)@.replays.len() > 0 && (c.tick, c.pawn_key, c.command@)
                    == old(self)@.replays[0] && final(self)@ == (CommandsView {
                    replays: old(self)@.replays.drop_first(),
                    ..old(self)@
                }),
                None => old(self)@.replays.len() == 0 && final(self)@ == old(self)@,
            },
    {
        if self.queued_command_replays.len() == 0 {
            return None;
        }
        let c = self.queued_command_replays.remove(0);
        assert(self@.replays =~= old(self)@.replays.drop_first());
        Some(c)
    }

    /// Queues a Command to be ran locally on the Client
    pub fn queue_command(&mut self, host_tick: u16, pawn_key: &PawnKey, command: &Variant)
        requires
            old(self).wf(),
            command.wf(),
        ensures
            final(self).wf(),
            final(self)@ == command_queued(old(self)@, host_tick, *pawn_key, command@),
    {
        self.queued_incoming_commands.push(
            TickedCommand { tick: host_tick, pawn_key: *pawn_key, command: command.copy() },
        );
        assert(self@.incoming =~= old(self)@.incoming.push((host_tick, *pawn_key, command@)));
        let at = find_history(&self.command_history, pawn_key);
        if at < self.command_history.len() {
            let ghost before = self.command_history@;
            let mut commands: Vec<HistoryEntry> = Vec::new();
            std::mem::swap(&mut self.command_history[at].commands, &mut commands);
            let ghost h = history_view(commands@);
            commands.push(HistoryEntry { tick: host_tick, command: command.copy() });
            assert(history_view(commands@) =~= h.push((host_tick, command@)));
            if commands.len() > COMMAND_HISTORY_SIZE {
                let ghost longer = history_view(commands@);
                commands.remove(0);
                assert(history_view(commands@) =~= longer.drop_first());
            }
            std::mem::swap(&mut self.command_history[at].commands, &mut commands);
            proof {
                lemma_pawn_position(histories_view(before), *pawn_key);
                assert(self@.histories =~= old(self)@.histories.update(
                    at as int,
                    (*pawn_key, history_pushed(h, host_tick, command@)),
                ));
            }
        }
    }

    /// Gives `pawn_key` an empty history.
    pub fn pawn_init(&mut self, pawn_key: &PawnKey)
        requires
            old(self).wf(),
        ensures
            final(self).wf(),
            final(self)@ == pawn_initialized(old(self)@, *pawn_key),
    {
        let at = find_history(&self.command_history, pawn_key);
        let ghost before = self.command_history@;
        if at < self.command_history.len() {
            self.command_history.set(at, PawnHistory { pawn_key: *pawn_key, commands: Vec::new() });
            proof {
                assert(history_view(Seq::<HistoryEntry>::empty()) =~= Seq::empty());
                assert(self@.histories =~= old(self)@.histories.update(
                    at as int,
                    (*pawn_key, Seq::empty()),
                ));
            }
        } else {
            self.command_history.push(PawnHistory { pawn_key: *pawn_key, commands: Vec::new() });
            proof {
                assert(history_view(Seq::<HistoryEntry>::empty()) =~= Seq::empty());
                assert(self@.histories =~= old(self)@.histories.push((*pawn_key, Seq::empty())));
            }
        }
    }

    /// Drops the history of `pawn_key`.
    pub fn pawn_cleanup(&mut self, pawn_key: &PawnKey)
        requires
            old(self).wf(),
        ensures
            final(self).wf(),
            final(self)@ == pawn_cleaned(old(self)@, *pawn_key),
    {
        let at = find_history(&self.command_history, pawn_key);
        if at < self.command_history.len() {
            self.command_history.remove(at);
            assert(self@.histories =~= old(self)@.histories.remove(at as int));
        }
    }

    /// Queues commands to be replayed from a given tick
    pub fn replay_commands(&mut self, history_tick: u16, pawn_key: &PawnKey)
        requires
            old(self).wf(),
        ensures
            final(self).wf(),
            final(self)@ == replay_requested(old(self)@, history_tick, *pawn_key),
    {
        let at = find_trigger(&self.replay_trigger, pawn_key);
        if at < self.replay_trigger.len() {
            proof {
                lemma_pawn_position(triggers_view(self.replay_trigger@), *pawn_key);
            }
            if sequence_greater_than(history_tick, self.replay_trigger[at].tick) {
                self.replay_trigger.set(
                    at,
                    ReplayTrigger { pawn_key: *pawn_key, tick: history_tick },
                );
                assert(self@.triggers =~= old(self)@.triggers.update(
                    at as int,
                    (*pawn_key, history_tick),
                ));
            }
        } else {
            self.replay_trigger.push(ReplayTrigger { pawn_key: *pawn_key, tick: history_tick });
            assert(self@.triggers =~= old(self)@.triggers.push((*pawn_key, history_tick)));
        }
    }

    /// Removes command history for a given pawn until a specific tick
    pub fn remove_history_until(&mut self, history_tick: u16, pawn_key: &PawnKey)
        requires
            old(self).wf(),
        ensures
            final(self).wf(),
            final(self)@ == history_trimmed(old(self)@, history_tick, *pawn_key),
    {
        let at = find_history(&self.command_history, pawn_key);
        if at < self.command_history.len() {
            let ghost before = self.command_history@;
            proof {
                lemma_pawn_position(histories_view(before), *pawn_key);
            }
            let kept = commands_after(&self.command_history[at].commands, history_tick);
            let ghost h = history_view(before[at as int].commands@);
            assert(forall|j: int|
                0 <= j < before[at as int].commands@.len() ==> (
                #[trigger] before[at as int].commands@[j]).command.wf());
            self.command_history.set(at, PawnHistory { pawn_key: *pawn_key, commands: kept });
            proof {
                assert(self@.histories =~= old(self)@.histories.update(
                    at as int,
                    (*pawn_key, history_after(h, history_tick)),
                ));
            }
        }
    }

    fn queue_replays(&mut self, pawn_key: &PawnKey)
        requires
            old(self).wf(),
        ensures
            final(self).wf(),
            final(self)@ == (CommandsView {
                replays: if pawn_position(old(self)@.histories, *pawn_key) < old(self)@.histories.len() {
                    old(self)@.replays + as_replays(
                        old(self)@.histories[pawn_position(old(self)@.histories, *pawn_key)].1,
                        *pawn_key,
                    )
                } else {
                    old(self)@.replays
                },
                ..old(self)@
            }),
    {
        let at = find_history(&self.command_history, pawn_key);
        if at < self.command_history.len() {
            let ghost h = history_view(self.command_history@[at as int].commands@);
            let ghost before = self@.replays;
            let n = self.command_history[at].commands.len();
            let mut j: usize = 0;
            assert(before + as_replays(h, *pawn_key).subrange(0, 0) =~= before);
            while j < n
                invariant
                    j <= n,
                    at < self.command_history@.len(),
                    n == self.command_history@[at as int].commands@.len(),
                    self.wf(),
                    h == history_view(self.command_history@[at as int].commands@),
                    self@ == (CommandsView {
                        replays: before + as_replays(h, *pawn_key).subrange(0, j as int),
                        ..old(self)@
                    }),
                decreases n - j,
            {
                let ghost so_far = self@.replays;
                let entry = &self.command_history[at].commands[j];
                let replay = TickedCommand {
                    tick: entry.tick,
                    pawn_key: *pawn_key,
                    command: entry.command.copy(),
                };
                self.queued_command_replays.push(replay);
                proof {
                    assert(self@.replays =~= so_far.push((h[j as int].0, *pawn_key, h[j as int].1)));
                    assert(before + as_replays(h, *pawn_key).subrange(0, j + 1) =~= (before
                        + as_replays(h, *pawn_key).subrange(0, j as int)).push(
                        as_replays(h, *pawn_key)[j as int],
                    ));
                }
                j += 1;
            }
            assert(as_replays(h, *pawn_key).subrange(0, n as int) =~= as_replays(h, *pawn_key));
        }
    }

    /// Prepares the replays that were asked for, in the order of the
    /// requests: each pawn is set back to the server's state, its history
    /// loses the commands that the server's state reflects, and the rest of
    /// its history is queued for replay.
    pub fn process_command_replay(&mut self, replicate_manager: &mut ReplicateManager)
        requires
            old(self).wf(),
            old(replicate_manager).wf(),
        ensures
            final(self).wf(),
            final(replicate_manager).wf(),
            final(self)@ == replays_prepared(old(self)@),
            final(replicate_manager)@ == pawns_reset(
                old(replicate_manager)@,
                old(self)@.triggers,
            ),
    {
        if self.replay_trigger.len() == 0 {
            return ;
        }
        let mut triggers: Vec<ReplayTrigger> = Vec::new();
        std::mem::swap(&mut self.replay_trigger, &mut triggers);
        self.queued_incoming_commands = Vec::new();
        self.queued_command_replays = Vec::new();
        let ghost all = triggers_view(triggers@);
        let ghost total = all.len();
        assert(all == old(self)@.triggers);
        assert(self@.incoming =~= Seq::empty());
        assert(self@.replays =~= Seq::empty());
        assert(self@.triggers =~= Seq::empty());
        assert(all.subrange(0, total as int) =~= all);
        let mut i: usize = 0;
        while i < triggers.len()
            invariant
                i <= triggers@.len(),
                total == triggers@.len(),
                all == triggers_view(triggers@),
                self.wf(),
                replicate_manager.wf(),
                self@.incoming == Seq::<(u16, PawnKey, VariantView)>::empty(),
                self@.triggers == Seq::<(PawnKey, u16)>::empty(),
                replays_gathered(self@.histories, self@.replays, all.subrange(i as int, total as int))
                    == replays_gathered(old(self)@.histories, Seq::empty(), all),
                pawns_reset(replicate_manager@, all.subrange(i as int, total as int))
                    == pawns_reset(old(replicate_manager)@, all),
            decreases triggers@.len() - i,
        {
            let trigger = triggers[i];
            proof {
                let rest = all.subrange(i as int, total as int);
                assert(rest[0] == (trigger.pawn_key, trigger.tick));
                assert(rest.drop_first() =~= all.subrange(i + 1, total as int));
                lemma_pawn_position(self@.histories, trigger.pawn_key);
                if pawn_position(self@.histories, trigger.pawn_key) < self@.histories.len() {
                    lemma_position_after_update(
                        self@.histories,
                        trigger.pawn_key,
                        history_after(
                            self@.histories[pawn_position(self@.histories, trigger.pawn_key)].1,
                            trigger.tick,
                        ),
                    );
                }
            }
            replicate_manager.pawn_reset(&trigger.pawn_key);
            self.remove_history_until(trigger.tick, &trigger.pawn_key);
            self.queue_replays(&trigger.pawn_key);
            i += 1;
        }
        assert(all.subrange(total as int, total as int).len() == 0);
    }

    /// The number of commands in the history of `pawn_key`.
    pub fn command_history_count(&self, pawn_key: &PawnKey) -> (n: u8)
        requires
            self.wf(),
        ensures
            n == if pawn_position(self@.histories, *pawn_key) < self@.histories.len() {
                self@.histories[pawn_position(self@.histories, *pawn_key)].1.len()
            } else {
                0
            },
    {
        let at = find_history(&self.command_history, pawn_key);
        if at < self.command_history.len() {
            self.command_history[at].commands.len() as u8
        } else {
            0
        }
    }

    /// The history of `pawn_key`, oldest command first.
    pub fn command_history(&self, pawn_key: &PawnKey) -> (r: Option<&Vec<HistoryEntry>>)
        requires
            self.wf(),
        ensures
            match r {
                Some(h) => pawn_position(self@.histories, *pawn_key) < self@.histories.len()
                    && history_view(h@) == self@.histories[pawn_position(
                    self@.histories,
                    *pawn_key,
                )].1 && h@.len() <= COMMAND_HISTORY_SIZE && forall|j: int|
                    0 <= j < h@.len() ==> (#[trigger] h@[j]).command.wf(),
                None => pawn_position(self@.histories, *pawn_key) >= self@.histories.len(),
            },
    {
        let at = find_history(&self.command_history, pawn_key);
        if at < self.command_history.len() {
            Some(&self.command_history[at].commands)
        } else {
            None
        }
    }
}

} // verus!
