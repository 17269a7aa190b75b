//! Why no local key is handed out twice: as long as a replicate is in a
//! client's scope, its key is in use; a key is released only when the
//! client has confirmed the deletion of its replicate; and a key that is
//! handed out was not in use.

use crate::key_generator::{in_use, issued_from, lemma_issue_is_fresh, lemma_release, valid_pool, KeyPool};
use crate::replicate_record::{RecordView, ReplicateKind};
use crate::replicate_sender::{
    all_delivered, all_given_up, all_written, block_written, confirmed, delivered, despawned,
    given_up, marked, pawn_set, record_position, spawned, step_delivered, step_written,
    written_to, SenderView, Settling, Written,
};
use crate::variant::VariantView;
use vstd::prelude::*;

verus! {

/// Whether two replicates take their keys from the same key space.
pub open spec fn same_space(a: ReplicateKind, b: ReplicateKind) -> bool {
    (a == ReplicateKind::Entity) == (b == ReplicateKind::Entity)
}

/// Whether the key of a record is in use in its key space.
pub open spec fn key_held(object_keys: KeyPool, entity_keys: KeyPool, r: RecordView) -> bool {
    if r.kind == ReplicateKind::Entity {
        in_use(entity_keys, r.local_key)
    } else {
        in_use(object_keys, r.local_key)
    }
}

/// Every record's key is in use, and no two records of one key space share
/// a key.
pub open spec fn keys_held(object_keys: KeyPool, entity_keys: KeyPool, records: Seq<RecordView>) -> bool {
    &&& valid_pool(object_keys)
    &&& valid_pool(entity_keys)
    &&& forall|i: int| 0 <= i < records.len() ==> key_held(object_keys, entity_keys, #[trigger] records[i])
    &&& forall|i: int, j: int|
        0 <= i < j < records.len() && same_space(
            (#[trigger] records[i]).kind,
            (#[trigger] records[j]).kind,
        ) ==> records[i].local_key != records[j].local_key
}

/// Whether two lists of records name the same replicates under the same
/// keys.
pub open spec fn same_keys(a: Seq<RecordView>, b: Seq<RecordView>) -> bool {
    &&& a.len() == b.len()
    &&& forall|i: int|
        0 <= i < a.len() ==> (#[trigger] a[i]).local_key == b[i].local_key && a[i].kind
            == b[i].kind
}

proof fn lemma_same_keys_held(object_keys: KeyPool, entity_keys: KeyPool, a: Seq<RecordView>, b: Seq<RecordView>)
    requires
        keys_held(object_keys, entity_keys, a),
        same_keys(a, b),
    ensures
        keys_held(object_keys, entity_keys, b),
{
    assert forall|i: int| 0 <= i < b.len() implies key_held(
        object_keys,
        entity_keys,
        #[trigger] b[i],
    ) by {
        assert(key_held(object_keys, entity_keys, a[i]));
    }
    assert forall|i: int, j: int|
        0 <= i < j < b.len() && same_space(
            (#[trigger] b[i]).kind,
            (#[trigger] b[j]).kind,
        ) implies b[i].local_key != b[j].local_key by {
        assert(a[i].local_key == b[i].local_key && a[j].local_key == b[j].local_key);
        assert(same_space(a[i].kind, a[j].kind));
    }
}

/// A replicate that enters the scope gets a key that was not in use, and
/// every replicate in the scope keeps its key.
pub proof fn lemma_spawn_issues_a_fresh_key(
    s: SenderView,
    global: u32,
    kind: ReplicateKind,
    value: VariantView,
)
    requires
        keys_held(s.object_keys, s.entity_keys, s.records),
    ensures
        match spawned(s, global, kind, value) {
            Ok((after, key)) => keys_held(after.object_keys, after.entity_keys, after.records)
                && forall|i: int|
                0 <= i < s.records.len() && same_space((#[trigger] s.records[i]).kind, kind)
                    ==> s.records[i].local_key != key,
            Err(_) => true,
        },
{
    lemma_issue_is_fresh(s.object_keys);
    lemma_issue_is_fresh(s.entity_keys);
    match spawned(s, global, kind, value) {
        Ok((after, key)) => {
            assert forall|i: int| 0 <= i < s.records.len() && same_space(
                (#[trigger] s.records[i]).kind,
                kind,
            ) implies s.records[i].local_key != key by {
                assert(key_held(s.object_keys, s.entity_keys, s.records[i]));
            }
            assert forall|i: int| 0 <= i < after.records.len() implies key_held(
                after.object_keys,
                after.entity_keys,
                #[trigger] after.records[i],
            ) by {
                if i < s.records.len() {
                    assert(after.records[i] == s.records[i]);
                    assert(key_held(s.object_keys, s.entity_keys, s.records[i]));
                }
            }
            assert forall|i: int, j: int|
                0 <= i < j < after.records.len() && same_space(
                    (#[trigger] after.records[i]).kind,
                    (#[trigger] after.records[j]).kind,
                ) implies after.records[i].local_key != after.records[j].local_key by {
                assert(after.records[i] == s.records[i]);
                if j < s.records.len() {
                    assert(after.records[j] == s.records[j]);
                }
            }
        },
        Err(_) => {},
    }
}

proof fn lemma_written_same_keys(
    st: Written,
    rest: Seq<RecordView>,
    parents: Seq<(u32, u16)>,
    packet_index: u16,
    budget: int,
)
    ensures
        ({
            let out = all_written(st, rest, parents, packet_index, budget);
            &&& out.done.len() == st.done.len() + rest.len()
            &&& forall|i: int| 0 <= i < st.done.len() ==> #[trigger] out.done[i] == st.done[i]
            &&& forall|i: int|
                0 <= i < rest.len() ==> (#[trigger] out.done[st.done.len() + i]).local_key
                    == rest[i].local_key && out.done[st.done.len() + i].kind == rest[i].kind
        }),
    decreases rest.len(),
{
    if rest.len() > 0 {
        let st1 = step_written(st, rest[0], rest.drop_first(), parents, packet_index, budget);
        lemma_written_same_keys(st1, rest.drop_first(), parents, packet_index, budget);
        let out = all_written(st, rest, parents, packet_index, budget);
        assert(st1.done.len() == st.done.len() + 1);
        assert(st1.done[st.done.len() as int].local_key == rest[0].local_key);
        assert(st1.done[st.done.len() as int].kind == rest[0].kind);
        assert forall|i: int| 0 <= i < st.done.len() implies #[trigger] out.done[i] == st.done[i] by {
            assert(out.done[i] == st1.done[i]);
            assert(st1.done[i] == st.done[i]);
        }
        assert forall|i: int| 0 <= i < rest.len() implies (
        #[trigger] out.done[st.done.len() + i]).local_key == rest[i].local_key && out.done[st.done.len()
            + i].kind == rest[i].kind by {
            if i == 0 {
                assert(out.done[st.done.len() as int] == st1.done[st.done.len() as int]);
            } else {
                assert(out.done[st1.done.len() + (i - 1)].local_key == rest.drop_first()[i
                    - 1].local_key);
                assert(rest.drop_first()[i - 1] == rest[i]);
            }
        }
    }
}

/// Writing a packet, giving a packet up, asking for a deletion, writing a
/// property and assigning a pawn release no key and change no key.
pub proof fn lemma_keys_stay(s: SenderView, packet_index: u16, budget: int, global: u32, index: int, bytes: Seq<u8>, wanted: bool)
    requires
        keys_held(s.object_keys, s.entity_keys, s.records),
    ensures
        keys_held(s.object_keys, s.entity_keys, block_written(s.records, packet_index, budget).done),
        keys_held(s.object_keys, s.entity_keys, all_given_up(s.records, packet_index)),
        keys_held(s.object_keys, s.entity_keys, despawned(s, global).records),
        keys_held(s.object_keys, s.entity_keys, written_to(s, global, index, bytes).records),
        keys_held(s.object_keys, s.entity_keys, pawn_set(s, global, wanted).records),
{
    let start = Written {
        done: Seq::empty(),
        bytes: Seq::empty(),
        count: 0,
        created: Seq::empty(),
        open: true,
    };
    lemma_written_same_keys(
        start,
        s.records,
        crate::replicate_sender::created_entities(s.records),
        packet_index,
        budget,
    );
    let written = block_written(s.records, packet_index, budget).done;
    assert forall|i: int| 0 <= i < s.records.len() implies (#[trigger] s.records[i]).local_key
        == written[i].local_key && s.records[i].kind == written[i].kind by {
        assert(written[0 + i].local_key == s.records[i].local_key);
    }
    lemma_same_keys_held(s.object_keys, s.entity_keys, s.records, written);
    lemma_same_keys_held(
        s.object_keys,
        s.entity_keys,
        s.records,
        all_given_up(s.records, packet_index),
    );
    crate::replicate_sender::lemma_record_position(s.records, global);
    lemma_same_keys_held(s.object_keys, s.entity_keys, s.records, despawned(s, global).records);
    lemma_same_keys_held(
        s.object_keys,
        s.entity_keys,
        s.records,
        written_to(s, global, index, bytes).records,
    );
    lemma_same_keys_held(
        s.object_keys,
        s.entity_keys,
        s.records,
        pawn_set(s, global, wanted).records,
    );
}

proof fn lemma_delivered_keeps_keys(st: Settling, rest: Seq<RecordView>, packet_index: u16)
    requires
        keys_held(st.object_keys, st.entity_keys, st.records + rest),
    ensures
        ({
            let out = all_delivered(st, rest, packet_index);
            keys_held(out.object_keys, out.entity_keys, out.records)
        }),
    decreases rest.len(),
{
    let all = st.records + rest;
    if rest.len() == 0 {
        assert(all =~= st.records);
    } else {
        let r = rest[0];
        let at = st.records.len() as int;
        assert(all[at] == r);
        let st1 = step_delivered(st, r, packet_index);
        let next = st1.records + rest.drop_first();
        lemma_release(st.object_keys, r.local_key);
        lemma_release(st.entity_keys, r.local_key);
        assert(key_held(st.object_keys, st.entity_keys, all[at]));
        if st1.records.len() == st.records.len() + 1 {
            // the record stays, under its key
            assert(st1.object_keys == st.object_keys && st1.entity_keys == st.entity_keys);
            assert(st1.records[at].local_key == r.local_key && st1.records[at].kind == r.kind);
            assert forall|i: int| 0 <= i < all.len() implies (#[trigger] all[i]).local_key
                == next[i].local_key && all[i].kind == next[i].kind by {
                if i < at {
                    assert(next[i] == st.records[i]);
                } else if i > at {
                    assert(next[i] == rest.drop_first()[i - at - 1]);
                    assert(all[i] == rest[i - at]);
                }
            }
            lemma_same_keys_held(st.object_keys, st.entity_keys, all, next);
        } else {
            // the record goes and its key is released
            assert(st1.records == st.records);
            assert(next =~= all.remove(at));
            assert forall|i: int| 0 <= i < next.len() implies key_held(
                st1.object_keys,
                st1.entity_keys,
                #[trigger] next[i],
            ) by {
                let j = if i < at {
                    i
                } else {
                    i + 1
                };
                assert(next[i] == all[j]);
                assert(key_held(st.object_keys, st.entity_keys, all[j]));
                if same_space(all[j].kind, r.kind) {
                    if j < at {
                        assert(all[j].local_key != all[at].local_key);
                    } else {
                        assert(all[at].local_key != all[j].local_key);
                    }
                }
            }
            assert forall|i: int, j: int|
                0 <= i < j < next.len() && same_space(
                    (#[trigger] next[i]).kind,
                    (#[trigger] next[j]).kind,
                ) implies next[i].local_key != next[j].local_key by {
                let i2 = if i < at {
                    i
                } else {
                    i + 1
                };
                let j2 = if j < at {
                    j
                } else {
                    j + 1
                };
                assert(next[i] == all[i2] && next[j] == all[j2]);
                assert(same_space(all[i2].kind, all[j2].kind));
            }
        }
        lemma_delivered_keeps_keys(st1, rest.drop_first(), packet_index);
    }
}

/// When a packet is confirmed, the keys of the replicates that it destroys
/// are released, and every replicate that stays keeps its key in use.
pub proof fn lemma_confirmation_keeps_keys(s: SenderView, packet_index: u16)
    requires
        keys_held(s.object_keys, s.entity_keys, s.records),
    ensures
        keys_held(
            delivered(s, packet_index).object_keys,
            delivered(s, packet_index).entity_keys,
            delivered(s, packet_index).records,
        ),
{
    let st = Settling {
        object_keys: s.object_keys,
        entity_keys: s.entity_keys,
        records: Seq::empty(),
        ended: Seq::empty(),
    };
    assert(st.records + s.records =~= s.records);
    lemma_delivered_keeps_keys(st, s.records, packet_index);
}

/// A key is released only by the confirmation of a deletion: a record that
/// a confirmed packet destroys was in deletion, with its deletion in
/// flight in that packet, or was a component of an entity that the packet
/// destroyed.
pub proof fn lemma_release_needs_confirmed_delete(r: RecordView, packet_index: u16)
    ensures
        confirmed(r, packet_index) is None ==> r.status
            == crate::locality_status::LocalityStatus::Deleting && r.in_flight == Some(
            crate::replicate_record::InFlight {
                packet_index,
                action: crate::replicate_record::ReliableAction::Delete,
            },
        ),
        given_up(r, packet_index).local_key == r.local_key,
{
}

} // verus!
