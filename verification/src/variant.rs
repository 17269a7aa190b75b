//! Values of the protocol: a variant is a registered kind, named by its
//! 16-bit id, with one byte string per property. On the wire a property is
//! its length in one byte and then its bytes; a partial body holds only the
//! properties whose mask bit is set.

use crate::state_mask::{full_mask, StateMask, MAX_PROPERTIES};
use crate::wire::{copy_bytes, take_bytes, take_u8, write_bytes, PacketReader};
use vstd::prelude::*;

verus! {

/// The longest byte string that one property may hold.
pub const MAX_PROPERTY_LEN: usize = 255;

/// The wire form of the properties from index `from` on whose mask bit is
/// set.
pub open spec fn encode_fields(props: Seq<Seq<u8>>, mask: Seq<bool>, from: int) -> Seq<u8>
    decreases props.len() - from,
{
    if from < 0 || from >= props.len() {
        Seq::empty()
    } else if from < mask.len() && mask[from] {
        seq![props[from].len() as u8] + props[from] + encode_fields(props, mask, from + 1)
    } else {
        encode_fields(props, mask, from + 1)
    }
}

/// The fields that the bytes at `pos` hold for the mask bits from index
/// `from` on: a byte string where the bit is set, nothing where it is not;
/// with the position after the last field.
pub open spec fn take_fields(bytes: Seq<u8>, pos: int, mask: Seq<bool>, from: int) -> Option<
    (Seq<Option<Seq<u8>>>, int),
>
    decreases mask.len() - from,
{
    if from < 0 || from >= mask.len() {
        Some((Seq::empty(), pos))
    } else if mask[from] {
        match take_u8(bytes, pos) {
            Some((len, p1)) => match take_bytes(bytes, p1, len as int) {
                Some((field, p2)) => match take_fields(bytes, p2, mask, from + 1) {
                    Some((rest, end)) => Some((seq![Some(field)] + rest, end)),
                    None => None,
                },
                None => None,
            },
            None => None,
        }
    } else {
        match take_fields(bytes, pos, mask, from + 1) {
            Some((rest, end)) => Some((seq![Option::<Seq<u8>>::None] + rest, end)),
            None => None,
        }
    }
}

/// The properties after an update: a field that came replaces the property
/// at its index, the others keep their value.
pub open spec fn apply_fields(props: Seq<Seq<u8>>, fields: Seq<Option<Seq<u8>>>) -> Seq<Seq<u8>> {
    Seq::new(
        props.len(),
        |i: int|
            if i < fields.len() && fields[i] is Some {
                fields[i]->0
            } else {
                props[i]
            },
    )
}

/// The fields that an update with `mask` carries of `props`.
pub open spec fn masked_fields(props: Seq<Seq<u8>>, mask: Seq<bool>) -> Seq<Option<Seq<u8>>> {
    Seq::new(
        mask.len(),
        |i: int|
            if mask[i] && i < props.len() {
                Some(props[i])
            } else {
                None
            },
    )
}

/// Every field that came is short enough for a property.
pub open spec fn fields_short(fields: Seq<Option<Seq<u8>>>) -> bool {
    forall|i: int|
        0 <= i < fields.len() ==> (#[trigger] fields[i] matches Some(field) ==> field.len()
            <= MAX_PROPERTY_LEN)
}

/// Every property is short enough for its length byte, and there are no
/// more properties than a mask can cover.
pub open spec fn encodable(props: Seq<Seq<u8>>) -> bool {
    &&& props.len() <= MAX_PROPERTIES
    &&& forall|i: int| 0 <= i < props.len() ==> (#[trigger] props[i]).len() <= MAX_PROPERTY_LEN
}

pub proof fn lemma_take_fields_len(bytes: Seq<u8>, pos: int, mask: Seq<bool>, from: int)
    requires
        0 <= from <= mask.len(),
        0 <= pos <= bytes.len(),
    ensures
        take_fields(bytes, pos, mask, from) matches Some((fields, end)) ==> fields.len()
            == mask.len() - from && pos <= end <= bytes.len() && forall|i: int|
            0 <= i < fields.len() ==> ((#[trigger] fields[i]) is Some <==> mask[from + i]) && (
            fields[i] matches Some(field) ==> field.len() <= MAX_PROPERTY_LEN),
    decreases mask.len() - from,
{
    if from < mask.len() {
        if mask[from] {
            if let Some((len, p1)) = take_u8(bytes, pos) {
                if let Some((field, p2)) = take_bytes(bytes, p1, len as int) {
                    lemma_take_fields_len(bytes, p2, mask, from + 1);
                }
            }
        } else {
            lemma_take_fields_len(bytes, pos, mask, from + 1);
        }
    }
}

/// What a sender wrote of its properties under a mask, a receiver reads
/// back as exactly those fields, whatever bytes come before and after.
pub proof fn lemma_fields_round_trip(
    head: Seq<u8>,
    tail: Seq<u8>,
    props: Seq<Seq<u8>>,
    mask: Seq<bool>,
    from: int,
)
    requires
        encodable(props),
        mask.len() == props.len(),
        0 <= from <= props.len(),
    ensures
        take_fields(head + encode_fields(props, mask, from) + tail, head.len() as int, mask, from)
            == Some(
            (
                masked_fields(props, mask).subrange(from, mask.len() as int),
                (head.len() + encode_fields(props, mask, from).len()) as int,
            ),
        ),
    decreases props.len() - from,
{
    let body = encode_fields(props, mask, from);
    let bytes = head + body + tail;
    let pos = head.len() as int;
    let want = masked_fields(props, mask).subrange(from, mask.len() as int);
    if from >= props.len() {
        assert(want =~= Seq::<Option<Seq<u8>>>::empty());
    } else if mask[from] {
        let rest = encode_fields(props, mask, from + 1);
        let field = props[from];
        assert(body =~= seq![field.len() as u8] + field + rest);
        assert(bytes[pos] == field.len() as u8);
        assert(bytes.subrange(pos + 1, pos + 1 + field.len()) =~= field);
        let head2 = head + seq![field.len() as u8] + field;
        assert(head2 + rest + tail =~= bytes);
        lemma_fields_round_trip(head2, tail, props, mask, from + 1);
        assert(want =~= seq![Some(field)] + masked_fields(props, mask).subrange(
            from + 1,
            mask.len() as int,
        ));
    } else {
        lemma_fields_round_trip(head, tail, props, mask, from + 1);
        assert(want =~= seq![Option::<Seq<u8>>::None] + masked_fields(props, mask).subrange(
            from + 1,
            mask.len() as int,
        ));
    }
}

/// Applying the fields that an update carries of `new` to `old` gives, at
/// each index, the new property where the mask is set and the old one
/// elsewhere.
pub proof fn lemma_apply_masked(old_props: Seq<Seq<u8>>, new_props: Seq<Seq<u8>>, mask: Seq<bool>)
    requires
        old_props.len() == new_props.len(),
        mask.len() == new_props.len(),
    ensures
        apply_fields(old_props, masked_fields(new_props, mask)).len() == old_props.len(),
        forall|i: int|
            0 <= i < old_props.len() ==> #[trigger] apply_fields(
                old_props,
                masked_fields(new_props, mask),
            )[i] == if mask[i] {
                new_props[i]
            } else {
                old_props[i]
            },
{
}

/// The properties of a variant read in full: every field, in order.
pub open spec fn full_props(count: nat, fields: Seq<Option<Seq<u8>>>) -> Seq<Seq<u8>> {
    apply_fields(Seq::new(count, |i: int| Seq::<u8>::empty()), fields)
}

/// The variant of kind `naia_id` with `count` properties that the bytes at
/// `pos` hold in full, with the position after it.
pub open spec fn take_variant(bytes: Seq<u8>, pos: int, naia_id: u16, count: nat) -> Option<
    (VariantView, int),
> {
    match take_fields(bytes, pos, full_mask(count), 0) {
        Some((fields, end)) => Some(
            (VariantView { naia_id, props: full_props(count, fields) }, end),
        ),
        None => None,
    }
}

/// The wire form of all properties of a variant.
pub open spec fn encode_variant(props: Seq<Seq<u8>>) -> Seq<u8> {
    encode_fields(props, full_mask(props.len()), 0)
}

/// What `encode_variant` wrote reads back as the same properties.
pub proof fn lemma_variant_round_trip(head: Seq<u8>, tail: Seq<u8>, naia_id: u16, props: Seq<Seq<u8>>)
    requires
        encodable(props),
    ensures
        take_variant(head + encode_variant(props) + tail, head.len() as int, naia_id, props.len())
            == Some(
            (VariantView { naia_id, props }, (head.len() + encode_variant(props).len()) as int),
        ),
{
    let mask = full_mask(props.len());
    lemma_fields_round_trip(head, tail, props, mask, 0);
    let fields = masked_fields(props, mask);
    assert(fields.subrange(0, mask.len() as int) =~= fields);
    assert(full_props(props.len(), fields) =~= props);
}

/// The abstract value of a variant.
pub struct VariantView {
    pub naia_id: u16,
    pub props: Seq<Seq<u8>>,
}

/// An instance of a registered kind.
pub struct Variant {
    naia_id: u16,
    props: Vec<Vec<u8>>,
}

impl View for Variant {
    type V = VariantView;

    closed spec fn view(&self) -> VariantView {
        VariantView {
            naia_id: self.naia_id,
            props: Seq::new(self.props@.len(), |i: int| self.props@[i]@),
        }
    }
}

impl Variant {
    /// The variant can be written to the wire.
    pub open spec fn wf(&self) -> bool {
        encodable(self@.props)
    }

    /// A variant of kind `naia_id` with the given properties; none where
    /// there are too many properties or one of them is too long.
    pub fn new(naia_id: u16, props: Vec<Vec<u8>>) -> (r: Option<Variant>)
        ensures
            match r {
                Some(v) => v.wf() && v@.naia_id == naia_id && v@.props == Seq::new(
                    props@.len(),
                    |i: int| props@[i]@,
                ),
                None => !encodable(Seq::new(props@.len(), |i: int| props@[i]@)),
            },
    {
        let ghost view = Seq::new(props@.len(), |i: int| props@[i]@);
        if props.len() > MAX_PROPERTIES {
            return None;
        }
        let mut i: usize = 0;
        while i < props.len()
            invariant
                i <= props.len(),
                view == Seq::new(props@.len(), |i: int| props@[i]@),
                forall|j: int| 0 <= j < i ==> (#[trigger] view[j]).len() <= MAX_PROPERTY_LEN,
            decreases props.len() - i,
        {
            if props[i].len() > MAX_PROPERTY_LEN {
                assert(view[i as int].len() > MAX_PROPERTY_LEN);
                return None;
            }
            i += 1;
        }
        let v = Variant { naia_id, props };
        assert(v@.props =~= view);
        Some(v)
    }

    /// A variant of kind `naia_id` without properties.
    pub fn empty(naia_id: u16) -> (v: Variant)
        ensures
            v.wf(),
            v@ == (VariantView { naia_id, props: Seq::empty() }),
    {
        let v = Variant { naia_id, props: Vec::new() };
        assert(v@.props =~= Seq::empty());
        v
    }

    /// The same properties under another kind id.
    pub fn with_id(self, naia_id: u16) -> (v: Variant)
        ensures
            v@.naia_id == naia_id,
            v@.props == self@.props,
    {
        let v = Variant { naia_id, props: self.props };
        assert(v@.props =~= self@.props);
        v
    }

    /// Whether the variant can be written to the wire.
    pub fn is_encodable(&self) -> (b: bool)
        ensures
            b == self.wf(),
    {
        if self.props.len() > MAX_PROPERTIES {
            return false;
        }
        let mut i: usize = 0;
        while i < self.props.len()
            invariant
                i <= self.props@.len(),
                self.props@.len() <= MAX_PROPERTIES,
                forall|j: int| 0 <= j < i ==> (#[trigger] self@.props[j]).len() <= MAX_PROPERTY_LEN,
            decreases self.props@.len() - i,
        {
            if self.props[i].len() > MAX_PROPERTY_LEN {
                assert(self@.props[i as int].len() > MAX_PROPERTY_LEN);
                return false;
            }
            i += 1;
        }
        true
    }

    /// The id of the kind.
    pub fn naia_id(&self) -> (id: u16)
        ensures
            id == self@.naia_id,
    {
        self.naia_id
    }

    /// The number of properties.
    pub fn prop_count(&self) -> (n: usize)
        ensures
            n == self@.props.len(),
    {
        self.props.len()
    }

    /// The bytes of property `index`.
    pub fn get_prop(&self, index: usize) -> (r: Option<&Vec<u8>>)
        ensures
            match r {
                Some(bytes) => index < self@.props.len() && bytes@ == self@.props[index as int],
                None => index >= self@.props.len(),
            },
    {
        if index < self.props.len() {
            Some(&self.props[index])
        } else {
            None
        }
    }

    /// Writes property `index`. Nothing changes where there is no such
    /// property or the bytes are too long for one.
    pub fn set_prop(&mut self, index: usize, bytes: Vec<u8>) -> (done: bool)
        requires
            old(self).wf(),
        ensures
            final(self).wf(),
            done == (index < old(self)@.props.len() && bytes@.len() <= MAX_PROPERTY_LEN),
            final(self)@.naia_id == old(self)@.naia_id,
            done ==> final(self)@.props == old(self)@.props.update(index as int, bytes@),
            !done ==> final(self)@ == old(self)@,
    {
        if index < self.props.len() && bytes.len() <= MAX_PROPERTY_LEN {
            self.props.set(index, bytes);
            proof {
                assert(self@.props =~= old(self)@.props.update(index as int, bytes@));
                assert forall|i: int| 0 <= i < self@.props.len() implies (#[trigger] self@.props[i]).len()
                    <= MAX_PROPERTY_LEN by {
                    if i != index {
                        assert(self@.props[i] == old(self)@.props[i]);
                    }
                }
            }
            true
        } else {
            false
        }
    }

    /// A copy of the variant.
    pub fn copy(&self) -> (v: Variant)
        ensures
            v@ == self@,
    {
        let mut props: Vec<Vec<u8>> = Vec::new();
        let mut i: usize = 0;
        while i < self.props.len()
            invariant
                i <= self.props.len(),
                props@.len() == i,
                forall|j: int| 0 <= j < i ==> (#[trigger] props@[j])@ == self.props@[j]@,
            decreases self.props.len() - i,
        {
            props.push(copy_bytes(&self.props[i]));
            i += 1;
        }
        let v = Variant { naia_id: self.naia_id, props };
        assert(v@.props =~= self@.props);
        v
    }

    /// Whether both variants are of the same kind and hold the same bytes.
    pub fn same(&self, other: &Variant) -> (b: bool)
        ensures
            b == (self@ == other@),
    {
        if self.naia_id != other.naia_id || self.props.len() != other.props.len() {
            assert(self@.props.len() != other@.props.len() || self@.naia_id != other@.naia_id);
            return false;
        }
        let mut i: usize = 0;
        while i < self.props.len()
            invariant
                i <= self.props.len(),
                self.props@.len() == other.props@.len(),
                forall|j: int| 0 <= j < i ==> #[trigger] self@.props[j] == other@.props[j],
            decreases self.props.len() - i,
        {
            let a = &self.props[i];
            let b = &other.props[i];
            if a.len() != b.len() {
                assert(self@.props[i as int].len() != other@.props[i as int].len());
                return false;
            }
            let mut k: usize = 0;
            while k < a.len()
                invariant
                    k <= a.len(),
                    a.len() == b.len(),
                    a@ == self@.props[i as int],
                    b@ == other@.props[i as int],
                    forall|j: int| 0 <= j < k ==> a@[j] == b@[j],
                decreases a.len() - k,
            {
                if a[k] != b[k] {
                    assert(self@.props[i as int][k as int] != other@.props[i as int][k as int]);
                    return false;
                }
                k += 1;
            }
            assert(a@ =~= b@);
            i += 1;
        }
        assert(self@.props =~= other@.props);
        true
    }

    /// Applies the fields of an update: a field that came replaces the
    /// property at its index.
    pub fn apply(&mut self, fields: Vec<Option<Vec<u8>>>)
        ensures
            final(self)@.naia_id == old(self)@.naia_id,
            final(self)@.props == apply_fields(old(self)@.props, fields_view(fields@)),
            old(self).wf() && fields_short(fields_view(fields@)) ==> final(self).wf(),
    {
        let mut fields = fields;
        let ghost given = fields_view(fields@);
        let ghost target = apply_fields(old(self)@.props, given);
        let mut i: usize = 0;
        while i < self.props.len() && i < fields.len()
            invariant
                old(self).wf() && fields_short(given) ==> self.wf(),
                self@.naia_id == old(self)@.naia_id,
                self@.props.len() == old(self)@.props.len(),
                fields@.len() == given.len(),
                target == apply_fields(old(self)@.props, given),
                forall|j: int| i <= j < fields@.len() ==> #[trigger] fields_view(fields@)[j] == given[j],
                forall|j: int| 0 <= j < i && j < self@.props.len() ==> #[trigger] self@.props[j] == target[j],
                forall|j: int|
                    i <= j < self@.props.len() ==> #[trigger] self@.props[j] == old(self)@.props[j],
            decreases self.props.len() - i,
        {
            let mut taken: Option<Vec<u8>> = None;
            let ghost before_fields = fields@;
            let ghost before_props = self@.props;
            assert(fields_view(before_fields)[i as int] == given[i as int]);
            std::mem::swap(&mut fields[i], &mut taken);
            proof {
                assert forall|j: int| i < j < fields@.len() implies #[trigger] fields_view(fields@)[j]
                    == given[j] by {
                    assert(fields@[j] == before_fields[j]);
                    assert(fields_view(before_fields)[j] == given[j]);
                }
            }
            match taken {
                Some(bytes) => {
                    assert(given[i as int] == Some(bytes@));
                    self.props.set(i, bytes);
                    proof {
                        assert(self@.props =~= before_props.update(i as int, bytes@));
                        if old(self).wf() && fields_short(given) {
                            assert forall|j: int| 0 <= j < self@.props.len() implies (
                            #[trigger] self@.props[j]).len() <= MAX_PROPERTY_LEN by {
                                if j != i {
                                    assert(self@.props[j] == before_props[j]);
                                }
                            }
                        }
                    }
                },
                None => {
                    assert(given[i as int] is None);
                },
            }
            i += 1;
        }
        assert(self@.props =~= target);
    }

    /// Reads a variant of kind `naia_id` with `count` properties in full.
    pub fn read_full(reader: &mut PacketReader, naia_id: u16, count: u8) -> (r: Option<Variant>)
        requires
            old(reader).wf(),
        ensures
            final(reader).wf(),
            final(reader).data() == old(reader).data(),
            match take_variant(old(reader).data(), old(reader).pos(), naia_id, count as nat) {
                Some((v, end)) => r is Some && r.unwrap()@ == v && r.unwrap().wf() && final(reader).pos() == end,
                None => r is None && final(reader).pos() == old(reader).pos(),
            },
    {
        let mask = StateMask::full(count);
        proof {
            lemma_take_fields_len(old(reader).data(), old(reader).pos(), mask@, 0);
        }
        match read_fields(reader, &mask) {
            None => None,
            Some(fields) => {
                let mut props: Vec<Vec<u8>> = Vec::new();
                let mut i: u8 = 0;
                while i < count
                    invariant
                        i <= count,
                        props@.len() == i,
                        forall|j: int| 0 <= j < i ==> (#[trigger] props@[j])@ == Seq::<u8>::empty(),
                    decreases count - i,
                {
                    props.push(Vec::new());
                    i += 1;
                }
                let mut v = Variant { naia_id, props };
                assert(v@.props =~= Seq::new(count as nat, |i: int| Seq::<u8>::empty()));
                v.apply(fields);
                Some(v)
            },
        }
    }

    /// Reads an update: the properties whose bit is set in `mask` take the
    /// bytes that the packet holds for them; on a malformed body nothing
    /// changes.
    pub fn read_partial(&mut self, reader: &mut PacketReader, mask: &StateMask) -> (ok: bool)
        requires
            old(reader).wf(),
        ensures
            old(self).wf() ==> final(self).wf(),
            final(reader).wf(),
            final(reader).data() == old(reader).data(),
            final(self)@.naia_id == old(self)@.naia_id,
            match take_fields(old(reader).data(), old(reader).pos(), mask@, 0) {
                Some((fields, end)) => ok && final(self)@.props == apply_fields(
                    old(self)@.props,
                    fields,
                ) && final(reader).pos() == end,
                None => !ok && final(self)@ == old(self)@ && final(reader).pos() == old(reader).pos(),
            },
    {
        proof {
            lemma_take_fields_len(old(reader).data(), old(reader).pos(), mask@, 0);
        }
        match read_fields(reader, mask) {
            None => false,
            Some(fields) => {
                self.apply(fields);
                true
            },
        }
    }

    /// Appends the properties whose bit is set in `mask`.
    pub fn write_partial(&self, mask: &StateMask, out: &mut Vec<u8>)
        requires
            self.wf(),
        ensures
            final(out)@ == old(out)@ + encode_fields(self@.props, mask@, 0),
    {
        let mut i: usize = 0;
        while i < self.props.len()
            invariant
                self.wf(),
                i <= self.props.len(),
                out@ + encode_fields(self@.props, mask@, i as int) == old(out)@ + encode_fields(
                    self@.props,
                    mask@,
                    0,
                ),
            decreases self.props.len() - i,
        {
            let ghost before = out@;
            if mask.get_bit(i) {
                let prop = &self.props[i];
                assert(prop@ == self@.props[i as int]);
                out.push(prop.len() as u8);
                write_bytes(out, prop);
                proof {
                    let rest = encode_fields(self@.props, mask@, i + 1);
                    assert(out@ + rest =~= before + (seq![prop@.len() as u8] + prop@ + rest));
                }
            }
            i += 1;
        }
        assert(out@ + encode_fields(self@.props, mask@, i as int) =~= out@);
    }

    /// Appends all properties.
    pub fn write_full(&self, out: &mut Vec<u8>)
        requires
            self.wf(),
        ensures
            final(out)@ == old(out)@ + encode_fields(
                self@.props,
                full_mask(self@.props.len()),
                0,
            ),
    {
        let mask = StateMask::full(self.props.len() as u8);
        self.write_partial(&mask, out);
    }
}

/// Reads the fields that the mask announces.
pub fn read_fields(reader: &mut PacketReader, mask: &StateMask) -> (r: Option<Vec<Option<Vec<u8>>>>)
    requires
        old(reader).wf(),
    ensures
        final(reader).wf(),
        final(reader).data() == old(reader).data(),
        match take_fields(old(reader).data(), old(reader).pos(), mask@, 0) {
            Some((fields, end)) => r is Some && fields_view(r.unwrap()@) == fields && final(reader).pos() == end,
            None => r is None && final(reader).pos() == old(reader).pos(),
        },
{
    let start = reader.get_cursor();
    let mut fields: Vec<Option<Vec<u8>>> = Vec::new();
    let mut i: usize = 0;
    let ghost bytes = reader.data();
    let ghost whole = take_fields(bytes, start as int, mask@, 0);
    while i < mask.len()
        invariant
            i <= mask@.len(),
            reader.wf(),
            reader.data() == bytes,
            bytes == old(reader).data(),
            start == old(reader).pos(),
            start <= bytes.len(),
            fields@.len() == i,
            whole == take_fields(bytes, start as int, mask@, 0),
            whole == match take_fields(bytes, reader.pos(), mask@, i as int) {
                Some((rest, end)) => Some((fields_view(fields@) + rest, end)),
                None => None,
            },
        decreases mask@.len() - i,
    {
        let ghost pos = reader.pos();
        let ghost before = fields_view(fields@);
        if mask.get_bit(i) {
            let len = match reader.read_u8() {
                Some(len) => len,
                None => {
                    reader.rewind(start);
                    return None;
                },
            };
            let field = match reader.read_bytes(len as usize) {
                Some(field) => field,
                None => {
                    reader.rewind(start);
                    return None;
                },
            };
            fields.push(Some(field));
            proof {
                let after = fields_view(fields@);
                assert(after =~= before + seq![Some(field@)]);
                if let Some((rest, end)) = take_fields(bytes, reader.pos(), mask@, i + 1) {
                    assert(before + (seq![Some(field@)] + rest) =~= after + rest);
                }
            }
        } else {
            fields.push(None);
            proof {
                let after = fields_view(fields@);
                assert(after =~= before + seq![Option::<Seq<u8>>::None]);
                if let Some((rest, end)) = take_fields(bytes, reader.pos(), mask@, i + 1) {
                    assert(before + (seq![Option::<Seq<u8>>::None] + rest) =~= after + rest);
                }
            }
        }
        i += 1;
    }
    assert(fields_view(fields@) + Seq::<Option<Seq<u8>>>::empty() =~= fields_view(fields@));
    Some(fields)
}

/// The abstract value of a list of fields.
pub open spec fn fields_view(fields: Seq<Option<Vec<u8>>>) -> Seq<Option<Seq<u8>>> {
    Seq::new(
        fields.len(),
        |i: int|
            match fields[i] {
                Some(bytes) => Some(bytes@),
                None => None,
            },
    )
}

} // verus!
