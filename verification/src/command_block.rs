//! The block in which a client sends its commands: a count, then for each
//! pawn its key, the kind of the command, the newest command and a short
//! history of earlier ones, each with the number of ticks it lies back.

use crate::keys::{LocalEntityKey, LocalObjectKey, PawnKey};
use crate::manifest::{take_kind, Manifest};
use crate::variant::{encode_variant, Variant, VariantView};
use crate::wire::{
    extended, lemma_take_many_done, lemma_take_many_start, lemma_take_many_step, take_many,
    take_u16, take_u8, u16_bytes, write_u16, PacketReader,
};
use vstd::prelude::*;

verus! {

/// An earlier command, `tick_delta` ticks before the newest one.
pub struct PastCommand {
    pub tick_delta: u8,
    pub command: Variant,
}

/// The commands that one packet carries for one pawn.
pub struct CommandEntry {
    pub pawn_key: PawnKey,
    pub command: Variant,
    pub past: Vec<PastCommand>,
}

/// The abstract value of a `CommandEntry`.
pub struct CommandEntryView {
    pub pawn_key: PawnKey,
    pub command: VariantView,
    pub past: Seq<(u8, VariantView)>,
}

/// The abstract value of a history.
pub open spec fn past_view(past: Seq<PastCommand>) -> Seq<(u8, VariantView)> {
    Seq::new(past.len(), |i: int| (past[i].tick_delta, past[i].command@))
}

impl View for CommandEntry {
    type V = CommandEntryView;

    open spec fn view(&self) -> CommandEntryView {
        CommandEntryView {
            pawn_key: self.pawn_key,
            command: self.command@,
            past: past_view(self.past@),
        }
    }
}

/// The abstract value of a list of entries.
pub open spec fn entries_view(entries: Seq<CommandEntry>) -> Seq<CommandEntryView> {
    Seq::new(entries.len(), |i: int| entries[i]@)
}

/// The pawn key at `pos`: a byte that says whether the pawn is an object,
/// 1 for an object and 0 for an entity, then the 16-bit key. Any other
/// first byte is malformed.
pub open spec fn take_pawn_key(bytes: Seq<u8>, pos: int) -> Option<(PawnKey, int)> {
    match take_u8(bytes, pos) {
        Some((is_object, p1)) => match take_u16(bytes, p1) {
            Some((key, p2)) => if is_object == 1 {
                Some((PawnKey::Object(LocalObjectKey { value: key }), p2))
            } else if is_object == 0 {
                Some((PawnKey::Entity(LocalEntityKey { value: key }), p2))
            } else {
                None
            },
            None => None,
        },
        None => None,
    }
}

/// The bytes of a pawn key.
pub open spec fn encode_pawn_key(key: PawnKey) -> Seq<u8> {
    match key {
        PawnKey::Object(k) => seq![1u8] + u16_bytes(k.value),
        PawnKey::Entity(k) => seq![0u8] + u16_bytes(k.value),
    }
}

/// One earlier command of kind `naia_id` at `pos`.
pub open spec fn take_past_command(
    prototypes: Seq<VariantView>,
    naia_id: u16,
    bytes: Seq<u8>,
    pos: int,
) -> Option<((u8, VariantView), int)> {
    match take_u8(bytes, pos) {
        Some((delta, p1)) => match take_kind(prototypes, bytes, p1, naia_id) {
            Some((command, p2)) => Some(((delta, command), p2)),
            None => None,
        },
        None => None,
    }
}

/// The commands for one pawn at `pos`.
pub open spec fn take_command_entry(prototypes: Seq<VariantView>, bytes: Seq<u8>, pos: int) -> Option<
    (CommandEntryView, int),
> {
    match take_pawn_key(bytes, pos) {
        Some((pawn_key, p1)) => match take_u16(bytes, p1) {
            Some((naia_id, p2)) => match take_u8(bytes, p2) {
                Some((past_count, p3)) => match take_kind(prototypes, bytes, p3, naia_id) {
                    Some((command, p4)) => match take_many(
                        |b: Seq<u8>, p: int| take_past_command(prototypes, naia_id, b, p),
                        bytes,
                        p4,
                        past_count as nat,
                    ) {
                        Some((past, end)) => Some(
                            (CommandEntryView { pawn_key, command, past }, end),
                        ),
                        None => None,
                    },
                    None => None,
                },
                None => None,
            },
            None => None,
        },
        None => None,
    }
}

/// A whole command block at `pos`: the count and that many entries.
pub open spec fn take_command_block(prototypes: Seq<VariantView>, bytes: Seq<u8>, pos: int) -> Option<
    (Seq<CommandEntryView>, int),
> {
    match take_u8(bytes, pos) {
        Some((count, p1)) => take_many(
            |b: Seq<u8>, p: int| take_command_entry(prototypes, b, p),
            bytes,
            p1,
            count as nat,
        ),
        None => None,
    }
}

/// Reads a pawn key.
pub fn read_pawn_key(reader: &mut PacketReader) -> (r: Option<PawnKey>)
    requires
        old(reader).wf(),
    ensures
        final(reader).wf(),
        final(reader).data() == old(reader).data(),
        match take_pawn_key(old(reader).data(), old(reader).pos()) {
            Some((key, end)) => r == Some(key) && final(reader).pos() == end,
            None => r is None && final(reader).pos() == old(reader).pos(),
        },
{
    let start = reader.get_cursor();
    let is_object = match reader.read_u8() {
        Some(is_object) => is_object,
        None => {
            return None;
        },
    };
    let key = match reader.read_u16() {
        Some(key) => key,
        None => {
            reader.rewind(start);
            return None;
        },
    };
    if is_object == 1 {
        Some(PawnKey::Object(LocalObjectKey::from_u16(key)))
    } else if is_object == 0 {
        Some(PawnKey::Entity(LocalEntityKey::from_u16(key)))
    } else {
        reader.rewind(start);
        None
    }
}

/// Appends a pawn key.
pub fn write_pawn_key(out: &mut Vec<u8>, key: &PawnKey)
    ensures
        final(out)@ == old(out)@ + encode_pawn_key(*key),
{
    match key {
        PawnKey::Object(k) => {
            out.push(1);
            write_u16(out, k.to_u16());
        },
        PawnKey::Entity(k) => {
            out.push(0);
            write_u16(out, k.to_u16());
        },
    }
    assert(out@ =~= old(out)@ + encode_pawn_key(*key));
}

/// Reads the commands for one pawn.
pub fn read_command_entry(reader: &mut PacketReader, manifest: &Manifest) -> (r: Option<
    CommandEntry,
>)
    requires
        old(reader).wf(),
        manifest.wf(),
    ensures
        final(reader).wf(),
        final(reader).data() == old(reader).data(),
        match take_command_entry(
            manifest.events().prototypes(),
            old(reader).data(),
            old(reader).pos(),
        ) {
            Some((entry, end)) => r is Some && r.unwrap()@ == entry && final(reader).pos() == end,
            None => r is None && final(reader).pos() == old(reader).pos(),
        },
{
    let start = reader.get_cursor();
    let pawn_key = match read_pawn_key(reader) {
        Some(k) => k,
        None => {
            return None;
        },
    };
    let naia_id = match reader.read_u16() {
        Some(v) => v,
        None => {
            reader.rewind(start);
            return None;
        },
    };
    let past_count = match reader.read_u8() {
        Some(v) => v,
        None => {
            reader.rewind(start);
            return None;
        },
    };
    let command = match manifest.read_event(naia_id, reader) {
        Some(v) => v,
        None => {
            reader.rewind(start);
            return None;
        },
    };
    let ghost prototypes = manifest.events().prototypes();
    let ghost bytes = reader.data();
    let ghost item = |b: Seq<u8>, p: int| take_past_command(prototypes, naia_id, b, p);
    let ghost first = reader.pos();
    let ghost whole = take_many(item, bytes, first, past_count as nat);
    let mut past: Vec<PastCommand> = Vec::new();
    let mut i: u8 = 0;
    proof {
        lemma_take_many_start(item, bytes, first, past_count as nat);
        assert(past_view(past@) =~= Seq::empty());
    }
    while i < past_count
        invariant
            i <= past_count,
            reader.wf(),
            manifest.wf(),
            reader.data() == bytes,
            bytes == old(reader).data(),
            start == old(reader).pos(),
            start <= bytes.len(),
            prototypes == manifest.events().prototypes(),
            item == |b: Seq<u8>, p: int| take_past_command(prototypes, naia_id, b, p),
            whole == take_many(item, bytes, first, past_count as nat),
            take_command_entry(prototypes, bytes, start as int) == match whole {
                Some((past, end)) => Some(
                    (CommandEntryView { pawn_key, command: command@, past }, end),
                ),
                None => None,
            },
            whole == extended(
                past_view(past@),
                take_many(item, bytes, reader.pos(), (past_count - i) as nat),
            ),
        decreases past_count - i,
    {
        proof {
            lemma_take_many_step(
                item,
                bytes,
                past_view(past@),
                reader.pos(),
                (past_count - i) as nat,
            );
        }
        let ghost before = past_view(past@);
        assert(item(bytes, reader.pos()) == take_past_command(
            prototypes,
            naia_id,
            bytes,
            reader.pos(),
        ));
        let tick_delta = match reader.read_u8() {
            Some(v) => v,
            None => {
                reader.rewind(start);
                return None;
            },
        };
        let past_command = match manifest.read_event(naia_id, reader) {
            Some(v) => v,
            None => {
                reader.rewind(start);
                return None;
            },
        };
        past.push(PastCommand { tick_delta, command: past_command });
        assert(past_view(past@) =~= before.push((tick_delta, past_command@)));
        i += 1;
    }
    proof {
        lemma_take_many_done(item, bytes, past_view(past@), reader.pos());
    }
    Some(CommandEntry { pawn_key, command, past })
}

/// Reads a whole command block.
pub fn read_command_block(reader: &mut PacketReader, manifest: &Manifest) -> (r: Option<
    Vec<CommandEntry>,
>)
    requires
        old(reader).wf(),
        manifest.wf(),
    ensures
        final(reader).wf(),
        final(reader).data() == old(reader).data(),
        match take_command_block(
            manifest.events().prototypes(),
            old(reader).data(),
            old(reader).pos(),
        ) {
            Some((entries, end)) => r is Some && entries_view(r.unwrap()@) == entries && final(reader).pos() == end,
            None => r is None && final(reader).pos() == old(reader).pos(),
        },
{
    let start = reader.get_cursor();
    let count = match reader.read_u8() {
        Some(v) => v,
        None => {
            return None;
        },
    };
    let ghost prototypes = manifest.events().prototypes();
    let ghost bytes = reader.data();
    let ghost item = |b: Seq<u8>, p: int| take_command_entry(prototypes, b, p);
    let ghost first = reader.pos();
    let ghost whole = take_many(item, bytes, first, count as nat);
    let mut entries: Vec<CommandEntry> = Vec::new();
    let mut i: u8 = 0;
    proof {
        lemma_take_many_start(item, bytes, first, count as nat);
        assert(entries_view(entries@) =~= Seq::empty());
    }
    while i < count
        invariant
            i <= count,
            reader.wf(),
            manifest.wf(),
            reader.data() == bytes,
            bytes == old(reader).data(),
            start == old(reader).pos(),
            start <= bytes.len(),
            prototypes == manifest.events().prototypes(),
            item == |b: Seq<u8>, p: int| take_command_entry(prototypes, b, p),
            whole == take_many(item, bytes, first, count as nat),
            take_command_block(prototypes, bytes, start as int) == whole,
            whole == extended(
                entries_view(entries@),
                take_many(item, bytes, reader.pos(), (count - i) as nat),
            ),
        decreases count - i,
    {
        proof {
            lemma_take_many_step(
                item,
                bytes,
                entries_view(entries@),
                reader.pos(),
                (count - i) as nat,
            );
        }
        let ghost before = entries_view(entries@);
        assert(item(bytes, reader.pos()) == take_command_entry(prototypes, bytes, reader.pos()));
        let entry = match read_command_entry(reader, manifest) {
            Some(v) => v,
            None => {
                reader.rewind(start);
                return None;
            },
        };
        entries.push(entry);
        assert(entries_view(entries@) =~= before.push(entry@));
        i += 1;
    }
    proof {
        lemma_take_many_done(item, bytes, entries_view(entries@), reader.pos());
    }
    Some(entries)
}

} // verus!
