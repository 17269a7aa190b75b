//! What a server keeps of one replicate towards one client: its local key,
//! its status, the reliable action in flight for it, its current value, the
//! properties written since the last update was sent, and the updates that
//! are in flight.

use crate::locality_status::LocalityStatus;
use crate::state_mask::{all_clear, clear_mask, mask_or, mask_without, StateMask, MAX_PROPERTIES};
use crate::variant::{encodable, Variant, VariantView, MAX_PROPERTY_LEN};
use vstd::prelude::*;

verus! {

/// What a replicate is.
#[derive(Clone, Copy, PartialEq, Eq, Debug, Structural)]
pub enum ReplicateKind {
    /// A standalone object.
    Object,
    /// An entity, which owns components.
    Entity,
    /// A component of the entity with the given id.
    Component { entity: u32 },
}

/// The reliable actions.
#[derive(Clone, Copy, PartialEq, Eq, Debug, Structural)]
pub enum ReliableAction {
    Create,
    Delete,
    AssignPawn,
    UnassignPawn,
}

/// A reliable action in a packet that is not settled yet.
#[derive(Clone, Copy, PartialEq, Eq, Debug, Structural)]
pub struct InFlight {
    pub packet_index: u16,
    pub action: ReliableAction,
}

/// An update in a packet that is not settled yet, with the properties that
/// it carries.
pub struct SentUpdate {
    pub packet_index: u16,
    pub mask: StateMask,
}

/// The abstract value of a record.
pub struct RecordView {
    /// The id of the replicate on the server.
    pub global: u32,
    pub kind: ReplicateKind,
    pub local_key: u16,
    pub status: LocalityStatus,
    /// The replicate left the client's scope; its deletion waits until the
    /// client has confirmed the creation.
    pub delete_requested: bool,
    pub in_flight: Option<InFlight>,
    /// Whether the client is to control the replicate.
    pub pawn_wanted: bool,
    /// Whether the client was told so, and confirmed it.
    pub pawn_known: bool,
    pub value: VariantView,
    /// The properties written since the last update was sent.
    pub dirty: Seq<bool>,
    /// The updates in flight, oldest first, each with its packet and the
    /// properties that it carries.
    pub updates: Seq<(u16, Seq<bool>)>,
}

pub open spec fn updates_view(list: Seq<SentUpdate>) -> Seq<(u16, Seq<bool>)> {
    Seq::new(list.len(), |i: int| (list[i].packet_index, list[i].mask@))
}

/// A record for a replicate that has just entered the client's scope.
pub open spec fn fresh_record(global: u32, kind: ReplicateKind, local_key: u16, value: VariantView) -> RecordView {
    RecordView {
        global,
        kind,
        local_key,
        status: LocalityStatus::Creating,
        delete_requested: false,
        in_flight: None,
        pawn_wanted: false,
        pawn_known: false,
        value,
        dirty: clear_mask(value.props.len()),
        updates: Seq::empty(),
    }
}

/// The record once a deletion that was asked for can begin: from the
/// moment the replicate is created it is in deletion. Only a deletion asked
/// for while the creation is unconfirmed waits. The delete action itself
/// goes out when nothing reliable is in flight for the record.
pub open spec fn settled(r: RecordView) -> RecordView {
    if r.delete_requested && r.status == LocalityStatus::Created {
        RecordView { status: LocalityStatus::Deleting, ..r }
    } else {
        r
    }
}

/// The record after property `index` has been written.
pub open spec fn property_written(r: RecordView, index: int, bytes: Seq<u8>) -> RecordView {
    if 0 <= index < r.value.props.len() && bytes.len() <= MAX_PROPERTY_LEN {
        RecordView {
            value: VariantView { naia_id: r.value.naia_id, props: r.value.props.update(index, bytes) },
            dirty: if index < r.dirty.len() {
                r.dirty.update(index, true)
            } else {
                r.dirty
            },
            ..r
        }
    } else {
        r
    }
}

/// The record after an update with all written properties has gone out in
/// the packet `packet_index`.
pub open spec fn update_sent(r: RecordView, packet_index: u16) -> RecordView {
    RecordView {
        dirty: clear_mask(r.dirty.len()),
        updates: r.updates.push((packet_index, r.dirty)),
        ..r
    }
}

/// The updates in flight that did not go out in `packet_index`.
pub open spec fn updates_without(updates: Seq<(u16, Seq<bool>)>, packet_index: u16) -> Seq<
    (u16, Seq<bool>),
>
    decreases updates.len(),
{
    if updates.len() == 0 {
        Seq::empty()
    } else {
        let front = updates_without(updates.drop_last(), packet_index);
        if updates.last().0 == packet_index {
            front
        } else {
            front.push(updates.last())
        }
    }
}

/// The properties of `mask` that no update of `later` carries.
pub open spec fn not_sent_later(mask: Seq<bool>, later: Seq<(u16, Seq<bool>)>) -> Seq<bool>
    decreases later.len(),
{
    if later.len() == 0 {
        mask
    } else {
        not_sent_later(mask_without(mask, later[0].1), later.drop_first())
    }
}

/// The written properties after the packet `packet_index` was given up:
/// what an update of that packet carried and no later update carries is
/// written anew.
pub open spec fn redirtied(dirty: Seq<bool>, updates: Seq<(u16, Seq<bool>)>, packet_index: u16) -> Seq<
    bool,
>
    decreases updates.len(),
{
    if updates.len() == 0 {
        dirty
    } else {
        let rest = updates.drop_first();
        let d = redirtied(dirty, rest, packet_index);
        if updates[0].0 == packet_index {
            mask_or(d, not_sent_later(updates[0].1, rest))
        } else {
            d
        }
    }
}

/// What a server keeps of one replicate towards one client.
pub struct ReplicateRecord {
    pub global: u32,
    pub kind: ReplicateKind,
    pub local_key: u16,
    pub status: LocalityStatus,
    pub delete_requested: bool,
    pub in_flight: Option<InFlight>,
    pub pawn_wanted: bool,
    pub pawn_known: bool,
    pub value: Variant,
    pub dirty: StateMask,
    pub updates: Vec<SentUpdate>,
}

impl View for ReplicateRecord {
    type V = RecordView;

    open spec fn view(&self) -> RecordView {
        RecordView {
            global: self.global,
            kind: self.kind,
            local_key: self.local_key,
            status: self.status,
            delete_requested: self.delete_requested,
            in_flight: self.in_flight,
            pawn_wanted: self.pawn_wanted,
            pawn_known: self.pawn_known,
            value: self.value@,
            dirty: self.dirty@,
            updates: updates_view(self.updates@),
        }
    }
}

/// The value can be written to the wire and the mask covers its
/// properties.
pub open spec fn valid_record(r: RecordView) -> bool {
    &&& encodable(r.value.props)
    &&& r.dirty.len() == r.value.props.len()
}

impl ReplicateRecord {
    pub open spec fn wf(&self) -> bool {
        valid_record(self@)
    }

    /// A record for a replicate that has just entered the client's scope.
    pub fn new(global: u32, kind: ReplicateKind, local_key: u16, value: Variant) -> (r: Self)
        requires
            value.wf(),
        ensures
            r.wf(),
            r@ == fresh_record(global, kind, local_key, value@),
    {
        let dirty = StateMask::new(value.prop_count() as u8);
        let r = ReplicateRecord {
            global,
            kind,
            local_key,
            status: LocalityStatus::Creating,
            delete_requested: false,
            in_flight: None,
            pawn_wanted: false,
            pawn_known: false,
            value,
            dirty,
            updates: Vec::new(),
        };
        assert(r@.updates =~= Seq::empty());
        r
    }

    /// Begins a deletion that was asked for, if the replicate is created.
    pub fn settle(&mut self)
        ensures
            final(self)@ == settled(old(self)@),
            old(self).wf() ==> final(self).wf(),
    {
        if self.delete_requested {
            match self.status {
                LocalityStatus::Created => {
                    self.status = LocalityStatus::Deleting;
                },
                _ => {},
            }
        }
    }

    /// Writes property `index`. Nothing changes where there is no such
    /// property or the bytes are too long for one.
    pub fn write_property(&mut self, index: usize, bytes: Vec<u8>) -> (done: bool)
        requires
            old(self).wf(),
        ensures
            final(self).wf(),
            done == (index < old(self)@.value.props.len() && bytes@.len() <= MAX_PROPERTY_LEN),
            final(self)@ == property_written(old(self)@, index as int, bytes@),
    {
        if self.value.set_prop(index, bytes) {
            self.dirty.set_bit(index);
            true
        } else {
            false
        }
    }

    /// Notes that an update with all written properties goes out in the
    /// packet `packet_index`.
    pub fn note_update_sent(&mut self, packet_index: u16)
        requires
            old(self).wf(),
        ensures
            final(self).wf(),
            final(self)@ == update_sent(old(self)@, packet_index),
    {
        let mask = self.dirty.copy();
        self.updates.push(SentUpdate { packet_index, mask });
        self.dirty.clear();
        assert(self@.updates =~= old(self)@.updates.push((packet_index, old(self)@.dirty)));
    }

    /// Forgets the updates that went out in the packet `packet_index`.
    pub fn forget_updates(&mut self, packet_index: u16)
        ensures
            final(self)@ == (RecordView {
                updates: updates_without(old(self)@.updates, packet_index),
                ..old(self)@
            }),
            old(self).wf() ==> final(self).wf(),
    {
        let mut rest: Vec<SentUpdate> = Vec::new();
        std::mem::swap(&mut self.updates, &mut rest);
        let ghost all = updates_view(rest@);
        let ghost total = rest@.len();
        let mut kept: Vec<SentUpdate> = Vec::new();
        assert(all.subrange(0, 0) =~= Seq::empty());
        assert(updates_view(kept@) =~= Seq::empty());
        assert(all.subrange(0, total as int) =~= all);
        while rest.len() > 0
            invariant
                rest@.len() <= total,
                all.len() == total,
                updates_view(rest@) == all.subrange(total - rest@.len(), total as int),
                updates_view(kept@) == updates_without(
                    all.subrange(0, total - rest@.len()),
                    packet_index,
                ),
            decreases rest@.len(),
        {
            let ghost done = total - rest@.len();
            let ghost old_rest = rest@;
            let ghost before_kept = updates_view(kept@);
            let u = rest.remove(0);
            proof {
                assert(updates_view(old_rest)[0] == (u.packet_index, u.mask@));
                assert(all[done] == (u.packet_index, u.mask@));
                assert forall|i: int| 0 <= i < rest@.len() implies #[trigger] updates_view(rest@)[i]
                    == all[done + 1 + i] by {
                    assert(rest@[i] == old_rest[i + 1]);
                    assert(updates_view(old_rest)[i + 1] == all[done + i + 1]);
                }
                assert(updates_view(rest@) =~= all.subrange(done + 1, total as int));
                let part = all.subrange(0, done + 1);
                assert(part.drop_last() =~= all.subrange(0, done));
                assert(part.last() == all[done]);
            }
            if u.packet_index != packet_index {
                kept.push(u);
                assert(updates_view(kept@) =~= before_kept.push((u.packet_index, u.mask@)));
            }
        }
        self.updates = kept;
    }

    /// Marks as written anew the properties that an update of the packet
    /// `packet_index` carried and no later update carries.
    pub fn redirty(&mut self, packet_index: u16)
        ensures
            final(self)@ == (RecordView {
                dirty: redirtied(old(self)@.dirty, old(self)@.updates, packet_index),
                ..old(self)@
            }),
            old(self).wf() ==> final(self).wf(),
    {
        let ghost all = self@.updates;
        let ghost start = self@.dirty;
        let mut i: usize = self.updates.len();
        assert(all.subrange(i as int, all.len() as int) =~= Seq::empty());
        while i > 0
            invariant
                i <= self.updates@.len(),
                all == updates_view(self.updates@),
                self@ == (RecordView {
                    dirty: redirtied(start, all.subrange(i as int, all.len() as int), packet_index),
                    ..old(self)@
                }),
                old(self)@.dirty == start,
            decreases i,
        {
            i -= 1;
            proof {
                let part = all.subrange(i as int, all.len() as int);
                assert(part[0] == all[i as int]);
                assert(part.drop_first() =~= all.subrange(i + 1, all.len() as int));
            }
            if self.updates[i].packet_index == packet_index {
                let mut mask = self.updates[i].mask.copy();
                let mut j: usize = i + 1;
                let ghost later = all.subrange(i + 1, all.len() as int);
                assert(later.subrange(0, later.len() as int) =~= later);
                assert(mask@ == all[i as int].1);
                while j < self.updates.len()
                    invariant
                        i < j <= self.updates@.len(),
                        all == updates_view(self.updates@),
                        later == all.subrange(i + 1, all.len() as int),
                        not_sent_later(mask@, later.subrange(j - i - 1, later.len() as int))
                            == not_sent_later(all[i as int].1, later),
                    decreases self.updates@.len() - j,
                {
                    proof {
                        let tail = later.subrange(j - i - 1, later.len() as int);
                        assert(tail[0] == all[j as int]);
                        assert(tail.drop_first() =~= later.subrange(j - i, later.len() as int));
                    }
                    mask.nand(&self.updates[j].mask);
                    j += 1;
                }
                assert(later.subrange(later.len() as int, later.len() as int).len() == 0);
                self.dirty.or(&mask);
            }
        }
        assert(all.subrange(0, all.len() as int) =~= all);
        proof {
            lemma_redirtied_len(start, all, packet_index);
        }
    }
}

pub proof fn lemma_redirtied_len(dirty: Seq<bool>, updates: Seq<(u16, Seq<bool>)>, packet_index: u16)
    ensures
        redirtied(dirty, updates, packet_index).len() == dirty.len(),
    decreases updates.len(),
{
    if updates.len() > 0 {
        lemma_redirtied_len(dirty, updates.drop_first(), packet_index);
    }
}

} // verus!
