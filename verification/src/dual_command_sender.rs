//! The commands that a client has issued and not yet sent: one per pawn,
//! the newest replacing an older one that still waits.

use crate::keys::{
    lemma_pawn_index_injective, pawn_index, pawn_of_index, pawn_position, PawnKey,
};
use crate::table::{lemma_position_of, position_of, Table};
use crate::variant::{Variant, VariantView};
use vstd::prelude::*;

verus! {

/// The waiting commands in the order in which their pawns were queued.
pub open spec fn queued_view(keys: Seq<u32>, values: Seq<Variant>) -> Seq<(PawnKey, VariantView)> {
    Seq::new(keys.len(), |i: int| (pawn_of_index(keys[i]), values[i]@))
}

/// The list with `command` waiting for `pawn_key`: in place of the one that
/// waited for that pawn, or at the end.
pub open spec fn queued_put(
    list: Seq<(PawnKey, VariantView)>,
    pawn_key: PawnKey,
    command: VariantView,
) -> Seq<(PawnKey, VariantView)> {
    let at = pawn_position(list, pawn_key);
    if at >= list.len() {
        list.push((pawn_key, command))
    } else {
        list.update(at, (pawn_key, command))
    }
}

proof fn lemma_queued_position(keys: Seq<u32>, values: Seq<Variant>, pawn_key: PawnKey)
    requires
        keys.len() == values.len(),
        forall|i: int| 0 <= i < keys.len() ==> #[trigger] keys[i] < 131072,
    ensures
        pawn_position(queued_view(keys, values), pawn_key) == position_of(
            keys,
            pawn_index(pawn_key),
        ),
    decreases keys.len(),
{
    let list = queued_view(keys, values);
    if keys.len() > 0 {
        lemma_pawn_index_injective(pawn_key, pawn_of_index(keys[0]));
        assert(keys[0] < 131072);
        assert(pawn_index(pawn_of_index(keys[0])) == keys[0]);
        assert(list[0].0 == pawn_of_index(keys[0]));
        if list[0].0 != pawn_key {
            assert(list.drop_first() =~= queued_view(keys.drop_first(), values.drop_first()));
            assert forall|i: int| 0 <= i < keys.drop_first().len() implies #[trigger] keys.drop_first()[i]
                < 131072 by {
                assert(keys.drop_first()[i] == keys[i + 1]);
            }
            lemma_queued_position(keys.drop_first(), values.drop_first(), pawn_key);
        }
    }
}

/// Queues the commands of the pawns until a packet takes them.
pub struct DualCommandSender {
    queued_outgoing_command: Table<Variant>,
}

impl View for DualCommandSender {
    type V = Seq<(PawnKey, VariantView)>;

    closed spec fn view(&self) -> Seq<(PawnKey, VariantView)> {
        queued_view(self.queued_outgoing_command.keys(), self.queued_outgoing_command.values())
    }
}

impl DualCommandSender {
    pub closed spec fn wf(&self) -> bool {
        &&& self.queued_outgoing_command.wf()
        &&& forall|i: int|
            0 <= i < self.queued_outgoing_command.keys().len()
                ==> #[trigger] self.queued_outgoing_command.keys()[i] < 131072
        &&& forall|i: int|
            0 <= i < self.queued_outgoing_command.values().len() ==> (
            #[trigger] self.queued_outgoing_command.values()[i]).wf()
    }

    /// Creates a new CommandSender
    pub fn new() -> (s: Self)
        ensures
            s.wf(),
            s@ == Seq::<(PawnKey, VariantView)>::empty(),
    {
        let s = DualCommandSender { queued_outgoing_command: Table::new() };
        assert(s@ =~= Seq::<(PawnKey, VariantView)>::empty());
        s
    }

    /// Gets whether or not there are queued commands
    pub fn has_command(&self) -> (b: bool)
        ensures
            b == (self@.len() > 0),
    {
        !self.queued_outgoing_command.is_empty()
    }

    /// Queues a Command to be transmitted to the remote host; it replaces
    /// the command that waits for the same pawn.
    pub fn queue_command(&mut self, pawn_key: &PawnKey, command: Variant)
        requires
            old(self).wf(),
            command.wf(),
        ensures
            final(self).wf(),
            final(self)@ == queued_put(old(self)@, *pawn_key, command@),
    {
        proof {
            lemma_queued_position(
                self.queued_outgoing_command.keys(),
                self.queued_outgoing_command.values(),
                *pawn_key,
            );
            lemma_position_of(self.queued_outgoing_command.keys(), pawn_index(*pawn_key));
            lemma_pawn_index_injective(*pawn_key, *pawn_key);
        }
        let ghost before_keys = self.queued_outgoing_command.keys();
        let ghost before_values = self.queued_outgoing_command.values();
        let prev = self.queued_outgoing_command.insert(pawn_key.index(), command);
        proof {
            let k = pawn_index(*pawn_key);
            let at = position_of(before_keys, k);
            if prev is Some {
                assert(self@ =~= old(self)@.update(at, (*pawn_key, command@)));
                assert forall|i: int|
                    0 <= i < self.queued_outgoing_command.values().len() implies (
                #[trigger] self.queued_outgoing_command.values()[i]).wf() by {
                    if i != at {
                        assert(self.queued_outgoing_command.values()[i] == before_values[i]);
                    }
                }
            } else {
                assert(self@ =~= old(self)@.push((*pawn_key, command@)));
                assert forall|i: int|
                    0 <= i < self.queued_outgoing_command.values().len() implies (
                #[trigger] self.queued_outgoing_command.values()[i]).wf() by {
                    if i < before_values.len() {
                        assert(self.queued_outgoing_command.values()[i] == before_values[i]);
                    }
                }
                assert forall|i: int|
                    0 <= i < self.queued_outgoing_command.keys().len()
                        implies #[trigger] self.queued_outgoing_command.keys()[i] < 131072 by {
                    if i < before_keys.len() {
                        assert(self.queued_outgoing_command.keys()[i] == before_keys[i]);
                    }
                }
            }
        }
    }

    /// Gets the next queued Command
    pub fn pop_command(&mut self) -> (r: Option<(PawnKey, Variant)>)
        requires
            old(self).wf(),
        ensures
            final(self).wf(),
            match r {
                Some((pawn_key, command)) => old(self)@.len() > 0 && (pawn_key, command@) == old(self)@[0] && command.wf() && final(self)@ == old(self)@.drop_first(),
                None => old(self)@.len() == 0 && final(self)@ == old(self)@,
            },
    {
        if self.queued_outgoing_command.is_empty() {
            return None;
        }
        let key = self.queued_outgoing_command.key_at(0);
        let ghost before_keys = self.queued_outgoing_command.keys();
        let ghost before_values = self.queued_outgoing_command.values();
        proof {
            crate::table::lemma_position_unique(before_keys, 0);
            self.queued_outgoing_command.lemma_entry_at(0);
            self.queued_outgoing_command.lemma_lengths();
        }
        match self.queued_outgoing_command.remove(key) {
            Some(command) => {
                proof {
                    assert(self.queued_outgoing_command.keys() =~= before_keys.drop_first());
                    assert(self.queued_outgoing_command.values() =~= before_values.drop_first());
                    assert(self@ =~= old(self)@.drop_first());
                    assert(command == before_values[0]);
                    assert forall|i: int|
                        0 <= i < self.queued_outgoing_command.values().len() implies (
                    #[trigger] self.queued_outgoing_command.values()[i]).wf() by {
                        assert(self.queued_outgoing_command.values()[i] == before_values[i + 1]);
                    }
                    assert forall|i: int|
                        0 <= i < self.queued_outgoing_command.keys().len()
                            implies #[trigger] self.queued_outgoing_command.keys()[i] < 131072 by {
                        assert(self.queued_outgoing_command.keys()[i] == before_keys[i + 1]);
                    }
                }
                Some((PawnKey::from_index(key), command))
            },
            None => None,
        }
    }

    /// If the last popped Command from the queue somehow wasn't able to be
    /// written into a packet, put the Command back: it waits for its pawn
    /// again, unless a newer command for the pawn has been queued since.
    pub fn unpop_command(&mut self, pawn_key: &PawnKey, command: Variant)
        requires
            old(self).wf(),
            command.wf(),
        ensures
            final(self).wf(),
            final(self)@ == if pawn_position(old(self)@, *pawn_key) < old(self)@.len() {
                old(self)@
            } else {
                old(self)@.push((*pawn_key, command@))
            },
    {
        proof {
            lemma_queued_position(
                self.queued_outgoing_command.keys(),
                self.queued_outgoing_command.values(),
                *pawn_key,
            );
            lemma_position_of(self.queued_outgoing_command.keys(), pawn_index(*pawn_key));
        }
        if !self.queued_outgoing_command.contains_key(pawn_key.index()) {
            self.queue_command(pawn_key, command);
        }
    }
}

/// A command that is taken for a packet and put back waits as before, at
/// the end of the queue.
pub proof fn lemma_unpop_after_pop(list: Seq<(PawnKey, VariantView)>)
    requires
        list.len() > 0,
        forall|i: int, j: int|
            0 <= i < list.len() && 0 <= j < list.len() && i != j ==> list[i].0 != list[j].0,
    ensures
        pawn_position(list.drop_first(), list[0].0) == list.len() - 1,
    decreases list.len(),
{
    lemma_absent_position(list.drop_first(), list[0].0);
}

proof fn lemma_absent_position(list: Seq<(PawnKey, VariantView)>, pawn_key: PawnKey)
    requires
        forall|i: int| 0 <= i < list.len() ==> (#[trigger] list[i]).0 != pawn_key,
    ensures
        pawn_position(list, pawn_key) == list.len(),
    decreases list.len(),
{
    if list.len() > 0 {
        assert(list[0].0 != pawn_key);
        assert forall|i: int| 0 <= i < list.drop_first().len() implies (
        #[trigger] list.drop_first()[i]).0 != pawn_key by {
            assert(list.drop_first()[i] == list[i + 1]);
        }
        lemma_absent_position(list.drop_first(), pawn_key);
    }
}

} // verus!
