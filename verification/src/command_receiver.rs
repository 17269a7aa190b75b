//! The server's buffer of commands received from one client. Commands wait
//! under the client tick for which they were issued, in a ring of 64 ticks,
//! until the server simulates that tick.

use crate::command_block::{
    entries_view, past_view, read_command_block, take_command_block, CommandEntry,
    CommandEntryView, PastCommand,
};
use crate::error::ProtocolError;
use crate::keys::{pawn_position, PawnKey};
use crate::manifest::Manifest;
use crate::sequence::{advance, greater_than, sequence_greater_than};
use crate::sequence_buffer::{
    map_inserted, next_advanced, too_old, without_older, SequenceBuffer,
};
use crate::variant::{Variant, VariantView};
use crate::wire::PacketReader;
use vstd::prelude::*;

verus! {

/// The number of ticks for which commands are kept.
pub const COMMAND_BUFFER_MAX_SIZE: u16 = 64;

/// A command waiting for its tick.
pub struct PendingCommand {
    pub pawn_key: PawnKey,
    pub command: Variant,
}

/// The commands waiting under one tick, in the order in which their pawns
/// were first seen.
pub type Pending = Seq<(PawnKey, VariantView)>;

/// The abstract value of the receiver: the number after the newest tick
/// seen, and the commands waiting under each tick.
pub struct CommandQueueView {
    pub next: u16,
    pub ticks: Map<u16, Pending>,
}

/// The abstract value of one tick's list.
pub open spec fn pending_view(list: Seq<PendingCommand>) -> Pending {
    Seq::new(list.len(), |i: int| (list[i].pawn_key, list[i].command@))
}

/// The list with `command` for `pawn_key`: added at the end for a pawn that
/// has none; for one that has, put in its place if `overwrite` holds and
/// dropped if not.
pub open spec fn pending_put(
    list: Pending,
    pawn_key: PawnKey,
    command: VariantView,
    overwrite: bool,
) -> Pending {
    let at = pawn_position(list, pawn_key);
    if at >= list.len() {
        list.push((pawn_key, command))
    } else if overwrite {
        list.update(at, (pawn_key, command))
    } else {
        list
    }
}

/// The queue after `command` has been filed under `tick`. A tick that has
/// no list yet gets one, unless it is too old for the ring; the ring then
/// drops what the new tick evicts.
pub open spec fn stored(
    q: CommandQueueView,
    tick: u16,
    pawn_key: PawnKey,
    command: VariantView,
    overwrite: bool,
) -> CommandQueueView {
    if q.ticks.contains_key(tick) {
        CommandQueueView {
            next: q.next,
            ticks: q.ticks.insert(tick, pending_put(q.ticks[tick], pawn_key, command, overwrite)),
        }
    } else if too_old(q.next, COMMAND_BUFFER_MAX_SIZE as int, tick) {
        q
    } else {
        CommandQueueView {
            next: next_advanced(q.next, tick),
            ticks: map_inserted(
                q.ticks,
                q.next,
                COMMAND_BUFFER_MAX_SIZE as int,
                tick,
                seq![(pawn_key, command)],
            ),
        }
    }
}

/// The queue after the earlier commands of an entry have been filed: each
/// under the tick that lies its delta before `client_tick`, if the server
/// has not passed that tick yet; a command already waiting there stays.
pub open spec fn stored_past(
    q: CommandQueueView,
    server_tick: u16,
    client_tick: u16,
    pawn_key: PawnKey,
    past: Seq<(u8, VariantView)>,
) -> CommandQueueView
    decreases past.len(),
{
    if past.len() == 0 {
        q
    } else {
        let past_tick = advance(client_tick, -(past[0].0 as int));
        let q1 = if greater_than(past_tick, server_tick) {
            stored(q, past_tick, pawn_key, past[0].1, false)
        } else {
            q
        };
        stored_past(q1, server_tick, client_tick, pawn_key, past.drop_first())
    }
}

/// The queue after one entry has been filed: its newest command under
/// `client_tick`, replacing what waited there for the pawn, then its
/// earlier commands.
pub open spec fn stored_entry(
    q: CommandQueueView,
    server_tick: u16,
    client_tick: u16,
    entry: CommandEntryView,
) -> CommandQueueView {
    stored_past(
        stored(q, client_tick, entry.pawn_key, entry.command, true),
        server_tick,
        client_tick,
        entry.pawn_key,
        entry.past,
    )
}

/// The queue after all entries of a block have been filed, in order.
pub open spec fn stored_entries(
    q: CommandQueueView,
    server_tick: u16,
    client_tick: u16,
    entries: Seq<CommandEntryView>,
) -> CommandQueueView
    decreases entries.len(),
{
    if entries.len() == 0 {
        q
    } else {
        stored_entries(
            stored_entry(q, server_tick, client_tick, entries[0]),
            server_tick,
            client_tick,
            entries.drop_first(),
        )
    }
}

/// An earlier command that comes again for the same pawn and tick changes
/// nothing: the first one to be filed stays.
pub proof fn lemma_first_write_wins(
    q: CommandQueueView,
    tick: u16,
    pawn_key: PawnKey,
    first: VariantView,
    second: VariantView,
)
    ensures
        stored(stored(q, tick, pawn_key, first, false), tick, pawn_key, second, false) == stored(
            q,
            tick,
            pawn_key,
            first,
            false,
        ),
{
    let q1 = stored(q, tick, pawn_key, first, false);
    let q2 = stored(q1, tick, pawn_key, second, false);
    if q.ticks.contains_key(tick) {
        let list = q.ticks[tick];
        let put = pending_put(list, pawn_key, first, false);
        crate::keys::lemma_pawn_position(list, pawn_key);
        crate::keys::lemma_pawn_position(put, pawn_key);
        let at = pawn_position(list, pawn_key);
        if at >= list.len() {
            assert(put[list.len() as int].0 == pawn_key);
        }
        assert(pending_put(put, pawn_key, second, false) == put);
        assert(q2.ticks =~= q1.ticks);
    } else if too_old(q.next, COMMAND_BUFFER_MAX_SIZE as int, tick) {
    } else {
        let put = seq![(pawn_key, first)];
        assert(q1.ticks.contains_key(tick));
        assert(q1.ticks[tick] == put);
        assert(put[0].0 == pawn_key);
        assert(pawn_position(put, pawn_key) == 0);
        assert(pending_put(put, pawn_key, second, false) == put);
        assert(q2.ticks =~= q1.ticks);
    }
}

/// The abstract value of the ring's entries.
pub open spec fn lifted(entries: Map<u16, Vec<PendingCommand>>) -> Map<u16, Pending> {
    Map::new(|k: u16| entries.contains_key(k), |k: u16| pending_view(entries[k]@))
}

/// What asking for the commands of `server_tick` does to the queue and what
/// it gives: the ticks that `server_tick` has passed are discarded, and the
/// first command that waits under `server_tick`, if there is one, is taken.
pub open spec fn popped(q: CommandQueueView, server_tick: u16) -> (
    CommandQueueView,
    Option<(PawnKey, VariantView)>,
) {
    let kept = without_older(q.ticks, server_tick);
    if q.ticks.contains_key(server_tick) && q.ticks[server_tick].len() > 0 {
        (
            CommandQueueView {
                next: q.next,
                ticks: kept.insert(server_tick, q.ticks[server_tick].drop_first()),
            },
            Some(q.ticks[server_tick][0]),
        )
    } else {
        (CommandQueueView { next: q.next, ticks: kept }, None)
    }
}

/// The command that a pop gave, as an abstract value.
pub open spec fn command_view(r: Option<(PawnKey, Variant)>) -> Option<(PawnKey, VariantView)> {
    match r {
        Some((pawn_key, command)) => Some((pawn_key, command@)),
        None => None,
    }
}

/// Handles incoming commands, buffering them to be received on the correct
/// tick.
pub struct CommandReceiver {
    queued_incoming_commands: SequenceBuffer<Vec<PendingCommand>>,
}

impl View for CommandReceiver {
    type V = CommandQueueView;

    closed spec fn view(&self) -> CommandQueueView {
        CommandQueueView {
            next: self.queued_incoming_commands.next(),
            ticks: lifted(self.queued_incoming_commands@),
        }
    }
}

fn find_pending(list: &Vec<PendingCommand>, pawn_key: &PawnKey) -> (at: usize)
    ensures
        at == pawn_position(pending_view(list@), *pawn_key),
        at <= list@.len(),
{
    let mut i: usize = 0;
    let ghost whole = pending_view(list@);
    assert(whole.subrange(0, whole.len() as int) =~= whole);
    while i < list.len()
        invariant
            i <= list@.len(),
            whole == pending_view(list@),
            pawn_position(whole, *pawn_key) == i + pawn_position(
                whole.subrange(i as int, whole.len() as int),
                *pawn_key,
            ),
        decreases list@.len() - i,
    {
        let ghost rest = whole.subrange(i as int, whole.len() as int);
        assert(rest[0] == whole[i as int]);
        assert(rest.drop_first() =~= whole.subrange(i + 1, whole.len() as int));
        if list[i].pawn_key == *pawn_key {
            return i;
        }
        i += 1;
    }
    assert(whole.subrange(i as int, whole.len() as int).len() == 0);
    i
}

fn put_pending(list: &mut Vec<PendingCommand>, pawn_key: PawnKey, command: Variant, overwrite: bool)
    ensures
        pending_view(final(list)@) == pending_put(
            pending_view(old(list)@),
            pawn_key,
            command@,
            overwrite,
        ),
{
    let at = find_pending(list, &pawn_key);
    if at >= list.len() {
        list.push(PendingCommand { pawn_key, command });
        assert(pending_view(list@) =~= pending_view(old(list)@).push((pawn_key, command@)));
    } else if overwrite {
        list.set(at, PendingCommand { pawn_key, command });
        assert(pending_view(list@) =~= pending_view(old(list)@).update(
            at as int,
            (pawn_key, command@),
        ));
    }
}

impl CommandReceiver {
    pub closed spec fn wf(&self) -> bool {
        &&& self.queued_incoming_commands.wf()
        &&& self.queued_incoming_commands.capacity() == COMMAND_BUFFER_MAX_SIZE
    }

    /// Creates a new CommandReceiver
    pub fn new() -> (r: Self)
        ensures
            r.wf(),
            r@ == (CommandQueueView { next: 0, ticks: Map::<u16, Pending>::empty() }),
    {
        let r = CommandReceiver {
            queued_incoming_commands: SequenceBuffer::with_capacity(COMMAND_BUFFER_MAX_SIZE),
        };
        assert(r@.ticks =~= Map::<u16, Pending>::empty());
        r
    }

    /// Takes the first command that waits under `server_tick`, the tick
    /// that is simulated now, and discards what waits under older ticks.
    pub fn pop_incoming_command(&mut self, server_tick: u16) -> (r: Option<(PawnKey, Variant)>)
        requires
            old(self).wf(),
        ensures
            final(self).wf(),
            final(self)@ == popped(old(self)@, server_tick).0,
            command_view(r) == popped(old(self)@, server_tick).1,
    {
        self.queued_incoming_commands.remove_older(server_tick);
        let ghost kept = without_older(old(self)@.ticks, server_tick);
        proof {
            assert(self@.ticks =~= kept);
            assert(kept.contains_key(server_tick) == old(self)@.ticks.contains_key(server_tick));
        }
        if !self.queued_incoming_commands.contains(server_tick) {
            return None;
        }
        assert(kept[server_tick] == old(self)@.ticks[server_tick]);
        match self.queued_incoming_commands.replace(server_tick, Vec::new()) {
            Ok(list) => {
                let mut list = list;
                let ghost before = pending_view(list@);
                assert(before == kept[server_tick]);
                if list.len() == 0 {
                    proof {
                        assert(pending_view(Seq::<PendingCommand>::empty()) =~= before);
                        assert(self@.ticks =~= kept);
                    }
                    return None;
                }
                let first = list.remove(0);
                assert(pending_view(list@) =~= before.drop_first());
                assert(before[0] == (first.pawn_key, first.command@));
                let _ = self.queued_incoming_commands.replace(server_tick, list);
                proof {
                    assert(self@.ticks =~= kept.insert(server_tick, before.drop_first()));
                }
                Some((first.pawn_key, first.command))
            },
            Err(_) => None,
        }
    }

    fn store(&mut self, tick: u16, pawn_key: PawnKey, command: Variant, overwrite: bool)
        requires
            old(self).wf(),
        ensures
            final(self).wf(),
            final(self)@ == stored(old(self)@, tick, pawn_key, command@, overwrite),
    {
        if !self.queued_incoming_commands.contains(tick) {
            let mut list: Vec<PendingCommand> = Vec::new();
            list.push(PendingCommand { pawn_key, command });
            assert(pending_view(list@) =~= seq![(pawn_key, command@)]);
            self.queued_incoming_commands.insert(tick, list);
            proof {
                let want = stored(old(self)@, tick, pawn_key, command@, overwrite);
                assert(self@.ticks =~= want.ticks);
            }
        } else {
            match self.queued_incoming_commands.replace(tick, Vec::new()) {
                Ok(list) => {
                    let mut list = list;
                    put_pending(&mut list, pawn_key, command, overwrite);
                    let ghost after = pending_view(list@);
                    let _ = self.queued_incoming_commands.replace(tick, list);
                    proof {
                        assert(self@.ticks =~= old(self)@.ticks.insert(tick, after));
                    }
                },
                Err(_) => {},
            }
        }
    }

    fn store_past(
        &mut self,
        server_tick: u16,
        client_tick: u16,
        pawn_key: PawnKey,
        past: Vec<PastCommand>,
    )
        requires
            old(self).wf(),
        ensures
            final(self).wf(),
            final(self)@ == stored_past(
                old(self)@,
                server_tick,
                client_tick,
                pawn_key,
                past_view(past@),
            ),
    {
        let mut past = past;
        let ghost all = past_view(past@);
        while past.len() > 0
            invariant
                self.wf(),
                stored_past(self@, server_tick, client_tick, pawn_key, past_view(past@))
                    == stored_past(old(self)@, server_tick, client_tick, pawn_key, all),
            decreases past@.len(),
        {
            let ghost before = past_view(past@);
            let item = past.remove(0);
            assert(past_view(past@) =~= before.drop_first());
            assert(before[0] == (item.tick_delta, item.command@));
            let past_tick = client_tick.wrapping_sub(item.tick_delta as u16);
            assert(past_tick == advance(client_tick, -(item.tick_delta as int)));
            if sequence_greater_than(past_tick, server_tick) {
                self.store(past_tick, pawn_key, item.command, false);
            }
        }
        assert(past_view(past@).len() == 0);
    }

    /// Files the entries of one command block that arrived with
    /// `client_tick`: for each pawn the newest command under that tick,
    /// and each earlier command under its own tick, if that tick is still
    /// ahead of `server_tick` and holds no command for the pawn yet.
    pub fn store_entries(&mut self, server_tick: u16, client_tick: u16, entries: Vec<CommandEntry>)
        requires
            old(self).wf(),
        ensures
            final(self).wf(),
            final(self)@ == stored_entries(
                old(self)@,
                server_tick,
                client_tick,
                entries_view(entries@),
            ),
    {
        let mut entries = entries;
        let ghost all = entries_view(entries@);
        while entries.len() > 0
            invariant
                self.wf(),
                stored_entries(self@, server_tick, client_tick, entries_view(entries@))
                    == stored_entries(old(self)@, server_tick, client_tick, all),
            decreases entries@.len(),
        {
            let ghost before = entries_view(entries@);
            let entry = entries.remove(0);
            assert(entries_view(entries@) =~= before.drop_first());
            assert(before[0] == entry@);
            self.store(client_tick, entry.pawn_key, entry.command, true);
            self.store_past(server_tick, client_tick, entry.pawn_key, entry.past);
        }
        assert(entries_view(entries@).len() == 0);
    }

    /// Given incoming packet data, read transmitted Command and store them to
    /// be returned to the application. A block that is cut short or names an
    /// unknown kind is refused as a whole.
    pub fn process_data(
        &mut self,
        server_tick: u16,
        client_tick: u16,
        reader: &mut PacketReader,
        manifest: &Manifest,
    ) -> (r: Result<(), ProtocolError>)
        requires
            old(self).wf(),
            old(reader).wf(),
            manifest.wf(),
        ensures
            final(self).wf(),
            final(reader).wf(),
            final(reader).data() == old(reader).data(),
            match take_command_block(
                manifest.events().prototypes(),
                old(reader).data(),
                old(reader).pos(),
            ) {
                Some((entries, end)) => {
                    &&& r is Ok
                    &&& final(reader).pos() == end
                    &&& final(self)@ == stored_entries(
                        old(self)@,
                        server_tick,
                        client_tick,
                        entries,
                    )
                },
                None => {
                    &&& r == Err::<(), ProtocolError>(ProtocolError::Malformed)
                    &&& final(reader).pos() == old(reader).pos()
                    &&& final(self)@ == old(self)@
                },
            },
    {
        match read_command_block(reader, manifest) {
            Some(entries) => {
                self.store_entries(server_tick, client_tick, entries);
                Ok(())
            },
            None => Err(ProtocolError::Malformed),
        }
    }
}

} // verus!
