//! Builds the payload of one outgoing packet. Commands and messages are
//! gathered in a block each; a block starts with the byte of its manager
//! and the count of its items. An item is written whole or not at all: one
//! that would take the payload beyond the limit leaves the writer as it
//! was.

use crate::command_block::{
    encode_pawn_key, take_command_entry, take_past_command, take_pawn_key, write_pawn_key,
    CommandEntryView,
};
use crate::manifest::take_kind;
use crate::config::COMMAND_HISTORY_SIZE;
use crate::dual_command_receiver::{history_view, CommandsView, DualCommandReceiver, History, HistoryEntry};
use crate::keys::{pawn_position, PawnKey};
use crate::message_manager::{encode_message, write_message};
use crate::sequence::{diff, wrapping_diff};
use crate::standard_header::HEADER_SIZE;
use crate::variant::{encodable, encode_variant, lemma_variant_round_trip, Variant, VariantView};
use crate::wire::{
    lemma_u16_round_trip, take_many, take_u16, take_u8, u16_bytes, write_bytes, write_u16,
    DATAGRAM_SIZE,
};
use vstd::prelude::*;

verus! {

/// The most bytes that the payload of a packet may take, after the header.
pub const MTU_SIZE: usize = 497;

/// The bytes that name the manager of a block.
pub const MANAGER_MESSAGE: u8 = 0;

pub const MANAGER_REPLICATE: u8 = 1;

pub const MANAGER_COMMAND: u8 = 2;

/// The abstract state of a packet writer.
pub struct WriterView {
    pub command_count: u8,
    pub command_bytes: Seq<u8>,
    pub message_count: u8,
    pub message_bytes: Seq<u8>,
}

/// The number of bytes of the payload so far.
pub open spec fn writer_size(w: WriterView) -> int {
    let commands: int = if w.command_count != 0 {
        2 + w.command_bytes.len() as int
    } else {
        0
    };
    let messages: int = if w.message_count != 0 {
        2 + w.message_bytes.len() as int
    } else {
        0
    };
    commands + messages
}

/// The payload so far: the command block, then the message block, each
/// only if it holds an item.
pub open spec fn writer_bytes(w: WriterView) -> Seq<u8> {
    (if w.command_count != 0 {
        seq![MANAGER_COMMAND, w.command_count] + w.command_bytes
    } else {
        Seq::empty()
    }) + (if w.message_count != 0 {
        seq![MANAGER_MESSAGE, w.message_count] + w.message_bytes
    } else {
        Seq::empty()
    })
}

/// The writer with nothing written.
pub open spec fn empty_writer() -> WriterView {
    WriterView {
        command_count: 0,
        command_bytes: Seq::empty(),
        message_count: 0,
        message_bytes: Seq::empty(),
    }
}

/// The number of ticks that a command issued at `tick` lies before
/// `host_tick`, if it lies 1 to 255 ticks before it.
pub open spec fn past_delta(tick: u16, host_tick: u16) -> Option<u8> {
    let d = diff(tick, host_tick);
    if 0 < d <= 255 {
        Some(d as u8)
    } else {
        None
    }
}

/// The bytes of a history: for each command the ticks it lies back and its
/// body.
pub open spec fn encode_past(past: Seq<(u8, VariantView)>) -> Seq<u8>
    decreases past.len(),
{
    if past.len() == 0 {
        Seq::empty()
    } else {
        encode_past(past.drop_last()) + seq![past.last().0] + encode_variant(past.last().1.props)
    }
}

/// The earlier commands that go out with a command of kind `naia_id` sent
/// at `host_tick`: from the newest back, those of the same kind that lie 1
/// to 255 ticks back, until one does not fit in the `budget` of bytes.
pub open spec fn past_selected(history: History, host_tick: u16, naia_id: u16, budget: int) -> Seq<
    (u8, VariantView),
>
    decreases history.len(),
{
    if history.len() == 0 {
        Seq::empty()
    } else {
        let e = history.last();
        if past_delta(e.0, host_tick) is Some && e.1.naia_id == naia_id {
            let size = 1 + encode_variant(e.1.props).len();
            if size <= budget {
                seq![(past_delta(e.0, host_tick).unwrap(), e.1)] + past_selected(
                    history.drop_last(),
                    host_tick,
                    naia_id,
                    budget - size,
                )
            } else {
                Seq::empty()
            }
        } else {
            past_selected(history.drop_last(), host_tick, naia_id, budget)
        }
    }
}

/// The bytes of the commands for one pawn.
pub open spec fn encode_command_entry(e: CommandEntryView) -> Seq<u8> {
    encode_pawn_key(e.pawn_key) + u16_bytes(e.command.naia_id) + seq![e.past.len() as u8]
        + encode_variant(e.command.props) + encode_past(e.past)
}

/// The history that the receiver keeps for `pawn_key`; empty if it keeps
/// none.
pub open spec fn history_of(c: CommandsView, pawn_key: PawnKey) -> History {
    let at = pawn_position(c.histories, pawn_key);
    if at < c.histories.len() {
        c.histories[at].1
    } else {
        Seq::empty()
    }
}

/// The writer after a command for `pawn_key` has been written at
/// `host_tick`, with as much of the pawn's history as fits; none if the
/// command itself does not fit.
pub open spec fn command_written(
    w: WriterView,
    c: CommandsView,
    host_tick: u16,
    pawn_key: PawnKey,
    command: VariantView,
) -> Option<WriterView> {
    let overhead: int = if w.command_count == 0 {
        2
    } else {
        0
    };
    let room = MTU_SIZE - writer_size(w) - overhead - 6 - encode_variant(command.props).len();
    if room < 0 || w.command_count == 255 {
        None
    } else {
        let past = past_selected(history_of(c, pawn_key), host_tick, command.naia_id, room);
        Some(
            WriterView {
                command_count: (w.command_count + 1) as u8,
                command_bytes: w.command_bytes + encode_command_entry(
                    CommandEntryView { pawn_key, command, past },
                ),
                ..w
            },
        )
    }
}

/// The writer after a message has been written; none if it does not fit.
pub open spec fn message_written(w: WriterView, message: VariantView) -> Option<WriterView> {
    let overhead: int = if w.message_count == 0 {
        2
    } else {
        0
    };
    if writer_size(w) + overhead + encode_message(message).len() > MTU_SIZE || w.message_count
        == 255 {
        None
    } else {
        Some(
            WriterView {
                message_count: (w.message_count + 1) as u8,
                message_bytes: w.message_bytes + encode_message(message),
                ..w
            },
        )
    }
}

pub proof fn lemma_past_selected_len(history: History, host_tick: u16, naia_id: u16, budget: int)
    ensures
        past_selected(history, host_tick, naia_id, budget).len() <= history.len(),
    decreases history.len(),
{
    if history.len() > 0 {
        let e = history.last();
        if past_delta(e.0, host_tick) is Some && e.1.naia_id == naia_id {
            let size = 1 + encode_variant(e.1.props).len();
            if size <= budget {
                lemma_past_selected_len(history.drop_last(), host_tick, naia_id, budget - size);
            }
        } else {
            lemma_past_selected_len(history.drop_last(), host_tick, naia_id, budget);
        }
    }
}

/// Handles writing of commands and messages into an outgoing packet.
pub struct PacketWriter {
    command_working_bytes: Vec<u8>,
    command_count: u8,
    message_working_bytes: Vec<u8>,
    message_count: u8,
}

impl View for PacketWriter {
    type V = WriterView;

    closed spec fn view(&self) -> WriterView {
        WriterView {
            command_count: self.command_count,
            command_bytes: self.command_working_bytes@,
            message_count: self.message_count,
            message_bytes: self.message_working_bytes@,
        }
    }
}

impl PacketWriter {
    /// The payload stays within the limit, and a block without items has
    /// no bytes.
    pub open spec fn wf(&self) -> bool {
        &&& writer_size(self@) <= MTU_SIZE
        &&& self@.command_count == 0 ==> self@.command_bytes.len() == 0
        &&& self@.message_count == 0 ==> self@.message_bytes.len() == 0
    }

    /// Construct a new instance of `PacketWriter`, the given `buffer` will
    /// be used to read information from.
    pub fn new() -> (w: PacketWriter)
        ensures
            w.wf(),
            w@ == empty_writer(),
    {
        PacketWriter {
            command_working_bytes: Vec::new(),
            command_count: 0,
            message_working_bytes: Vec::new(),
            message_count: 0,
        }
    }

    /// Returns whether the writer has bytes to write into the outgoing
    /// packet
    pub fn has_bytes(&self) -> (b: bool)
        ensures
            b == (self@.command_count != 0 || self@.message_count != 0),
    {
        self.command_count != 0 || self.message_count != 0
    }

    /// Get the number of bytes which is ready to be written into an
    /// outgoing packet
    pub fn bytes_number(&self) -> (n: usize)
        requires
            self.wf(),
        ensures
            n == writer_size(self@),
    {
        let mut n: usize = 0;
        if self.command_count != 0 {
            n = n + 2 + self.command_working_bytes.len();
        }
        if self.message_count != 0 {
            n = n + 2 + self.message_working_bytes.len();
        }
        n
    }

    /// Gets the bytes to write into an outgoing packet; the writer is
    /// empty afterwards.
    pub fn get_bytes(&mut self) -> (out: Vec<u8>)
        requires
            old(self).wf(),
        ensures
            final(self).wf(),
            out@ == writer_bytes(old(self)@),
            final(self)@ == empty_writer(),
    {
        let mut out: Vec<u8> = Vec::new();
        if self.command_count != 0 {
            out.push(MANAGER_COMMAND);
            out.push(self.command_count);
            write_bytes(&mut out, &self.command_working_bytes);
        }
        if self.message_count != 0 {
            out.push(MANAGER_MESSAGE);
            out.push(self.message_count);
            write_bytes(&mut out, &self.message_working_bytes);
        }
        assert(out@ =~= writer_bytes(old(self)@));
        self.command_count = 0;
        self.command_working_bytes = Vec::new();
        self.message_count = 0;
        self.message_working_bytes = Vec::new();
        out
    }

    /// Writes a Command into the Writer's internal buffer, which will
    /// eventually be put into the outgoing packet, together with the
    /// earlier commands of the pawn that the receiver still keeps and that
    /// fit. Returns whether the command was written.
    pub fn write_command(
        &mut self,
        host_tick: u16,
        command_receiver: &DualCommandReceiver,
        pawn_key: &PawnKey,
        command: &Variant,
    ) -> (written: bool)
        requires
            old(self).wf(),
            command_receiver.wf(),
            command.wf(),
        ensures
            final(self).wf(),
            match command_written(old(self)@, command_receiver@, host_tick, *pawn_key, command@) {
                Some(w) => written && final(self)@ == w,
                None => !written && final(self)@ == old(self)@,
            },
    {
        let mut body: Vec<u8> = Vec::new();
        command.write_full(&mut body);
        let overhead: usize = if self.command_count == 0 {
            2
        } else {
            0
        };
        let used = self.bytes_number() + overhead + 6;
        if self.command_count == 255 || body.len() > MTU_SIZE || used + body.len() > MTU_SIZE {
            return false;
        }
        let room: usize = MTU_SIZE - used - body.len();
        let mut past_bytes: Vec<u8> = Vec::new();
        let mut past_count: u8 = 0;
        let ghost history = history_of(command_receiver@, *pawn_key);
        let ghost naia_id = command@.naia_id;
        let ghost mut done: Seq<(u8, VariantView)> = Seq::empty();
        let id = command.naia_id();
        match command_receiver.command_history(pawn_key) {
            Some(entries) => {
                let mut j: usize = entries.len();
                let mut left: usize = room;
                assert(history.subrange(0, j as int) =~= history);
                assert(done + past_selected(history, host_tick, naia_id, room as int)
                    =~= past_selected(history, host_tick, naia_id, room as int));
                let mut stopped = false;
                while j > 0 && !stopped
                    invariant
                        j <= entries@.len(),
                        entries@.len() <= COMMAND_HISTORY_SIZE,
                        history == history_view(entries@),
                        forall|k: int| 0 <= k < entries@.len() ==> (#[trigger] entries@[k]).command.wf(),
                        left <= room,
                        room <= MTU_SIZE,
                        id == naia_id,
                        past_count == done.len(),
                        done.len() <= entries@.len() - j,
                        past_bytes@ == encode_past(done),
                        past_bytes@.len() == room - left,
                        !stopped ==> past_selected(history, host_tick, naia_id, room as int) == done
                            + past_selected(
                            history.subrange(0, j as int),
                            host_tick,
                            naia_id,
                            left as int,
                        ),
                        stopped ==> past_selected(history, host_tick, naia_id, room as int) == done,
                    decreases j + if stopped { 0int } else { 1int },
                {
                    let ghost part = history.subrange(0, j as int);
                    j -= 1;
                    let entry = &entries[j];
                    proof {
                        assert(part.last() == history[j as int]);
                        assert(part.drop_last() =~= history.subrange(0, j as int));
                        assert(history[j as int] == (entry.tick, entry.command@));
                    }
                    let d = wrapping_diff(entry.tick, host_tick);
                    if d > 0 && d <= 255 && entry.command.naia_id() == id {
                        let mut piece: Vec<u8> = Vec::new();
                        piece.push(d as u8);
                        entry.command.write_full(&mut piece);
                        assert(piece@ =~= seq![d as u8] + encode_variant(entry.command@.props));
                        if piece.len() <= left {
                            write_bytes(&mut past_bytes, &piece);
                            left = left - piece.len();
                            past_count = past_count + 1;
                            proof {
                                let item = (d as u8, entry.command@);
                                let longer = done.push(item);
                                assert(longer.drop_last() =~= done);
                                assert(past_bytes@ =~= encode_past(longer));
                                let rest = past_selected(
                                    history.subrange(0, j as int),
                                    host_tick,
                                    naia_id,
                                    left as int,
                                );
                                assert(done + (seq![item] + rest) =~= longer + rest);
                                done = longer;
                            }
                        } else {
                            stopped = true;
                            proof {
                                assert(done + Seq::<(u8, VariantView)>::empty() =~= done);
                            }
                        }
                    }
                }
                proof {
                    if !stopped {
                        assert(history.subrange(0, 0).len() == 0);
                        assert(done + Seq::<(u8, VariantView)>::empty() =~= done);
                    }
                }
            },
            None => {
                assert(history.len() == 0);
            },
        }
        let ghost before = self.command_working_bytes@;
        write_pawn_key(&mut self.command_working_bytes, pawn_key);
        write_u16(&mut self.command_working_bytes, id);
        self.command_working_bytes.push(past_count);
        write_bytes(&mut self.command_working_bytes, &body);
        write_bytes(&mut self.command_working_bytes, &past_bytes);
        self.command_count = self.command_count + 1;
        proof {
            let entry = CommandEntryView { pawn_key: *pawn_key, command: command@, past: done };
            assert(self.command_working_bytes@ =~= before + encode_command_entry(entry));
            assert(encode_pawn_key(*pawn_key).len() == 3);
            assert(u16_bytes(id).len() == 2);
        }
        true
    }

    /// Writes a message into the Writer's internal buffer, which will
    /// eventually be put into the outgoing packet. Returns whether the
    /// message was written.
    pub fn write_message(&mut self, message: &Variant) -> (written: bool)
        requires
            old(self).wf(),
            message.wf(),
        ensures
            final(self).wf(),
            match message_written(old(self)@, message@) {
                Some(w) => written && final(self)@ == w,
                None => !written && final(self)@ == old(self)@,
            },
    {
        let mut bytes: Vec<u8> = Vec::new();
        write_message(&mut bytes, message);
        assert(bytes@ =~= encode_message(message@));
        let overhead: usize = if self.message_count == 0 {
            2
        } else {
            0
        };
        let used = self.bytes_number() + overhead;
        if self.message_count == 255 || bytes.len() > MTU_SIZE || used + bytes.len() > MTU_SIZE {
            return false;
        }
        write_bytes(&mut self.message_working_bytes, &bytes);
        self.message_count = self.message_count + 1;
        true
    }
}

/// Whether a receiver with these prototypes reads a written value back:
/// its kind is registered with as many properties, each short enough.
pub open spec fn readable(prototypes: Seq<VariantView>, v: VariantView) -> bool {
    v.naia_id < prototypes.len() && prototypes[v.naia_id as int].props.len() == v.props.len()
        && encodable(v.props)
}

/// Whether every earlier command is a readable one of the kind `naia_id`.
pub open spec fn past_readable(
    prototypes: Seq<VariantView>,
    naia_id: u16,
    past: Seq<(u8, VariantView)>,
) -> bool {
    forall|i: int|
        0 <= i < past.len() ==> (#[trigger] past[i]).1.naia_id == naia_id && readable(
            prototypes,
            past[i].1,
        )
}

/// The bytes of two histories in a row are the bytes of the one followed
/// by the bytes of the other.
pub proof fn lemma_encode_past_concat(a: Seq<(u8, VariantView)>, b: Seq<(u8, VariantView)>)
    ensures
        encode_past(a + b) == encode_past(a) + encode_past(b),
    decreases b.len(),
{
    if b.len() == 0 {
        assert(a + b =~= a);
        assert(encode_past(a) + encode_past(b) =~= encode_past(a));
    } else {
        lemma_encode_past_concat(a, b.drop_last());
        assert((a + b).drop_last() =~= a + b.drop_last());
        assert((a + b).last() == b.last());
        assert(encode_past(a + b) =~= encode_past(a) + encode_past(b));
    }
}

/// The written history, read from its `k`-th command on, gives the
/// commands from the `k`-th on.
proof fn lemma_past_read_from(
    prototypes: Seq<VariantView>,
    naia_id: u16,
    head: Seq<u8>,
    past: Seq<(u8, VariantView)>,
    tail: Seq<u8>,
    k: int,
)
    requires
        past_readable(prototypes, naia_id, past),
        0 <= k <= past.len(),
    ensures
        take_many(
            |b: Seq<u8>, p: int| take_past_command(prototypes, naia_id, b, p),
            head + encode_past(past) + tail,
            (head.len() + encode_past(past.take(k)).len()) as int,
            (past.len() - k) as nat,
        ) == Some((past.skip(k), (head.len() + encode_past(past).len()) as int)),
    decreases past.len() - k,
{
    let item = |b: Seq<u8>, p: int| take_past_command(prototypes, naia_id, b, p);
    let bytes = head + encode_past(past) + tail;
    let pos = (head.len() + encode_past(past.take(k)).len()) as int;
    if k == past.len() {
        assert(past.take(k) =~= past);
        assert(past.skip(k) =~= Seq::<(u8, VariantView)>::empty());
    } else {
        lemma_past_read_from(prototypes, naia_id, head, past, tail, k + 1);
        let e = past[k];
        let front = past.take(k + 1);
        assert(front.drop_last() =~= past.take(k));
        assert(front.last() == e);
        assert(encode_past(front) == encode_past(past.take(k)) + seq![e.0] + encode_variant(
            e.1.props,
        ));
        assert(past =~= front + past.skip(k + 1));
        lemma_encode_past_concat(front, past.skip(k + 1));
        let before = head + encode_past(past.take(k)) + seq![e.0];
        let after = encode_past(past.skip(k + 1)) + tail;
        assert(bytes =~= before + encode_variant(e.1.props) + after);
        assert(bytes[pos] == e.0);
        lemma_variant_round_trip(before, after, naia_id, e.1.props);
        assert(e.1 == (VariantView { naia_id, props: e.1.props }));
        assert(item(bytes, pos) == Some((e, (pos + 1 + encode_variant(e.1.props).len()) as int)));
        assert(seq![e] + past.skip(k + 1) =~= past.skip(k));
    }
}

/// A written pawn key is read back.
proof fn lemma_pawn_key_round_trip(key: PawnKey, bytes: Seq<u8>, pos: int)
    requires
        0 <= pos,
        pos + 3 <= bytes.len(),
        bytes.subrange(pos, pos + 3) == encode_pawn_key(key),
    ensures
        take_pawn_key(bytes, pos) == Some((key, pos + 3)),
{
    let part = bytes.subrange(pos, pos + 3);
    let value: u16 = match key {
        PawnKey::Object(k) => k.value,
        PawnKey::Entity(k) => k.value,
    };
    assert(part[0] == bytes[pos]);
    assert(part[1] == bytes[pos + 1]);
    assert(part[2] == bytes[pos + 2]);
    assert(bytes.subrange(pos + 1, pos + 3) =~= u16_bytes(value));
    lemma_u16_round_trip(value, bytes, pos + 1);
}

/// The commands for one pawn that a sender writes are read back as they
/// were written, by a receiver that has the kind registered.
pub proof fn lemma_command_entry_round_trip(
    prototypes: Seq<VariantView>,
    head: Seq<u8>,
    e: CommandEntryView,
    tail: Seq<u8>,
)
    requires
        readable(prototypes, e.command),
        past_readable(prototypes, e.command.naia_id, e.past),
        e.past.len() <= 255,
    ensures
        take_command_entry(prototypes, head + encode_command_entry(e) + tail, head.len() as int)
            == Some((e, (head.len() + encode_command_entry(e).len()) as int)),
{
    let naia_id = e.command.naia_id;
    let bytes = head + encode_command_entry(e) + tail;
    let pos = head.len() as int;
    let key_bytes = encode_pawn_key(e.pawn_key);
    let start = head + key_bytes + u16_bytes(naia_id) + seq![e.past.len() as u8];
    let body = encode_variant(e.command.props);
    let rest = encode_past(e.past) + tail;
    assert(key_bytes.len() == 3);
    assert(start.len() == pos + 6);
    assert(bytes =~= start + body + rest);
    assert(take_pawn_key(bytes, pos) == Some((e.pawn_key, pos + 3))) by {
        assert(bytes.subrange(pos, pos + 3) =~= key_bytes);
        lemma_pawn_key_round_trip(e.pawn_key, bytes, pos);
    }
    assert(take_u16(bytes, pos + 3) == Some((naia_id, pos + 5))) by {
        assert(bytes.subrange(pos + 3, pos + 5) =~= u16_bytes(naia_id));
        lemma_u16_round_trip(naia_id, bytes, pos + 3);
    }
    assert(take_u8(bytes, pos + 5) == Some((e.past.len() as u8, pos + 6))) by {
        assert(bytes[pos + 5] == start[pos + 5]);
    }
    let p4 = (pos + 6 + body.len()) as int;
    assert(take_kind(prototypes, bytes, pos + 6, naia_id) == Some((e.command, p4))) by {
        lemma_variant_round_trip(start, rest, naia_id, e.command.props);
        assert(e.command == (VariantView { naia_id, props: e.command.props }));
    }
    assert(take_many(
        |b: Seq<u8>, p: int| take_past_command(prototypes, naia_id, b, p),
        bytes,
        p4,
        e.past.len(),
    ) == Some((e.past, p4 + encode_past(e.past).len()))) by {
        assert(bytes =~= (start + body) + encode_past(e.past) + tail);
        assert(e.past.take(0) =~= Seq::<(u8, VariantView)>::empty());
        lemma_past_read_from(prototypes, naia_id, start + body, e.past, tail, 0);
        assert(e.past.skip(0) =~= e.past);
    }
    assert(encode_command_entry(e).len() == 6 + body.len() + encode_past(e.past).len());
}

} // verus!
