//! Reading a tag's name out of BLE advertising data.
use vstd::prelude::*;
use vstd::string::StringSliceAdditionalSpecFns;

verus! {

/// The type code of a complete local name structure.
pub const COMPLETE_LOCAL_NAME: u8 = 0x09;

/// For each advertising structure read from `data` at position `p` on, in
/// order: the bytes of a complete local name, or nothing for any other
/// structure and for a structure that does not read. A structure is a
/// length byte, then that many bytes: a type code and the data. A length
/// below 2 is skipped alone; without a type code reading ends; data cut
/// short is skipped with its length byte and type code.
pub open spec fn name_slots_from(data: Seq<u8>, p: int) -> Seq<Option<Seq<u8>>>
    decreases data.len() - p,
{
    if p < 0 || p >= data.len() {
        Seq::empty()
    } else {
        let len = data[p] as int;
        if len < 2 {
            seq![None::<Seq<u8>>] + name_slots_from(data, p + 1)
        } else if p + 1 >= data.len() {
            seq![None::<Seq<u8>>]
        } else if data.len() - (p + 2) < len - 1 {
            seq![None::<Seq<u8>>] + name_slots_from(data, p + 2)
        } else {
            let slot = if data[p + 1] == COMPLETE_LOCAL_NAME {
                Some(data.subrange(p + 2, p + 1 + len))
            } else {
                None
            };
            seq![slot] + name_slots_from(data, p + 1 + len)
        }
    }
}

/// For each advertising structure of `data`, in order: the bytes of a
/// complete local name, or nothing.
pub open spec fn advertised_name_slots(data: Seq<u8>) -> Seq<Option<Seq<u8>>> {
    name_slots_from(data, 0)
}

/// The bytes of an optional byte vector.
pub open spec fn opt_bytes(o: Option<Vec<u8>>) -> Option<Seq<u8>> {
    match o {
        Some(v) => Some(v@),
        None => None,
    }
}

/// `trouble_host::prelude::AdStructure::decode`, each item reduced to the
/// bytes of a complete local name or to nothing: its iterator reads a
/// length byte, fails below 2, reads the type code and the data, fails
/// where they are cut short, and yields `CompleteLocalName` for code 0x09.
#[verifier::external_body]
pub(crate) fn decode_name_slots(data: &[u8]) -> (r: Vec<Option<Vec<u8>>>)
    ensures
        r@.len() == advertised_name_slots(data@).len(),
        forall|i: int| 0 <= i < r@.len() ==> opt_bytes(#[trigger] r@[i]) == advertised_name_slots(data@)[i],
{
    trouble_host::prelude::AdStructure::decode(data).map(|item| match item {
        Ok(trouble_host::prelude::AdStructure::CompleteLocalName(name)) => Some(name.to_vec()),
        Ok(_) => None,
        Err(_) => None,
    }).collect()
}

/// The first complete local name among the slots, if there is one.
pub open spec fn first_name(slots: Seq<Option<Seq<u8>>>) -> Option<Seq<u8>>
    decreases slots.len(),
{
    if slots.len() == 0 {
        None
    } else if slots[0] is Some {
        slots[0]
    } else {
        first_name(slots.drop_first())
    }
}

/// The name that an advertisement carries: its first complete local name.
pub open spec fn advertised_name(data: Seq<u8>) -> Option<Seq<u8>> {
    first_name(advertised_name_slots(data))
}

proof fn lemma_first_name_at(slots: Seq<Option<Seq<u8>>>, i: int)
    requires
        0 <= i <= slots.len(),
        forall|j: int| 0 <= j < i ==> (#[trigger] slots[j]) is None,
    ensures
        i < slots.len() && slots[i] is Some ==> first_name(slots) == slots[i],
        i == slots.len() ==> first_name(slots) is None,
    decreases i,
{
    if i > 0 {
        let d = slots.drop_first();
        assert forall|j: int| 0 <= j < i - 1 implies (#[trigger] d[j]) is None by {
            assert(d[j] == slots[j + 1]);
        }
        lemma_first_name_at(d, i - 1);
        assert(slots[0] is None);
        if i < slots.len() {
            assert(d[i - 1] == slots[i]);
        }
    }
}

/// The name an advertisement carries is the one in its first slot that
/// holds a name: there is none exactly when no slot holds one.
pub proof fn law_first_name_is_earliest(slots: Seq<Option<Seq<u8>>>)
    ensures
        (first_name(slots) is None) <==> (forall|j: int| 0 <= j < slots.len() ==> (#[trigger] slots[j]) is None),
        forall|i: int|
            0 <= i < slots.len() && (#[trigger] slots[i]) is Some && (forall|j: int| 0 <= j < i ==> (#[trigger] slots[j]) is None)
                ==> first_name(slots) == slots[i],
    decreases slots.len(),
{
    assert forall|i: int|
        0 <= i < slots.len() && (#[trigger] slots[i]) is Some && (forall|j: int| 0 <= j < i ==> (#[trigger] slots[j]) is None)
            implies first_name(slots) == slots[i] by {
        lemma_first_name_at(slots, i);
    }
    if forall|j: int| 0 <= j < slots.len() ==> (#[trigger] slots[j]) is None {
        lemma_first_name_at(slots, slots.len() as int);
    } else {
        let k = choose|k: int| 0 <= k < slots.len() && !((#[trigger] slots[k]) is None);
        law_first_name_is_earliest(slots.drop_first());
        if k > 0 && slots[0] is None {
            assert(slots.drop_first()[k - 1] == slots[k]);
        }
    }
}

/// The position of the first complete local name among the slots.
pub fn first_name_index(slots: &Vec<Option<Vec<u8>>>) -> (r: Option<usize>)
    ensures
        r matches Some(i) ==> i < slots@.len() && opt_bytes(slots@[i as int]) is Some
            && first_name(slots@.map_values(|o: Option<Vec<u8>>| opt_bytes(o))) == opt_bytes(
            slots@[i as int],
        ),
        r is None ==> first_name(slots@.map_values(|o: Option<Vec<u8>>| opt_bytes(o))) is None,
{
    let ghost s = slots@.map_values(|o: Option<Vec<u8>>| opt_bytes(o));
    let mut i: usize = 0;
    while i < slots.len()
        invariant
            i <= slots@.len(),
            s == slots@.map_values(|o: Option<Vec<u8>>| opt_bytes(o)),
            forall|j: int| 0 <= j < i ==> (#[trigger] s[j]) is None,
        decreases slots.len() - i,
    {
        if slots[i].is_some() {
            proof {
                lemma_first_name_at(s, i as int);
            }
            return Some(i);
        }
        i += 1;
    }
    proof {
        lemma_first_name_at(s, i as int);
    }
    None
}

/// The complete local name of an advertisement, as bytes.
pub fn advertised_name_bytes(data: &[u8]) -> (r: Option<Vec<u8>>)
    ensures
        opt_bytes(r) == advertised_name(data@),
{
    let slots = decode_name_slots(data);
    proof {
        assert(slots@.map_values(|o: Option<Vec<u8>>| opt_bytes(o)) =~= advertised_name_slots(data@));
    }
    match first_name_index(&slots) {
        None => None,
        Some(i) => match &slots[i] {
            Some(v) => Some(vstd::slice::slice_to_vec(v.as_slice())),
            None => None,
        },
    }
}

/// `p` is a prefix of `s`.
pub open spec fn starts_with_bytes(s: Seq<u8>, p: Seq<u8>) -> bool {
    p.len() <= s.len() && s.subrange(0, p.len() as int) == p
}

/// `p` is a prefix of `s` exactly when `s` is at least as long and every
/// byte of `p` equals the byte of `s` at the same position.
pub proof fn law_prefix_bytewise(s: Seq<u8>, p: Seq<u8>)
    ensures
        starts_with_bytes(s, p) <==> (p.len() <= s.len() && forall|i: int| 0 <= i < p.len() ==> #[trigger] s[i] == p[i]),
{
    if p.len() <= s.len() && forall|i: int| 0 <= i < p.len() ==> #[trigger] s[i] == p[i] {
        assert(s.subrange(0, p.len() as int) =~= p);
    }
    if starts_with_bytes(s, p) {
        assert forall|i: int| 0 <= i < p.len() implies #[trigger] s[i] == p[i] by {
            assert(s.subrange(0, p.len() as int)[i] == s[i]);
        }
    }
}

/// Whether `name` starts with `prefix`, compared byte by byte.
pub fn has_prefix(name: &str, prefix: &str) -> (r: bool)
    ensures
        r == starts_with_bytes(name.spec_bytes(), prefix.spec_bytes()),
        r <==> (prefix.spec_bytes().len() <= name.spec_bytes().len() && forall|i: int|
            0 <= i < prefix.spec_bytes().len() ==> #[trigger] name.spec_bytes()[i] == prefix.spec_bytes()[i]),
{
    proof {
        law_prefix_bytewise(name.spec_bytes(), prefix.spec_bytes());
    }
    let n = name.as_bytes();
    let p = prefix.as_bytes();
    if p.len() > n.len() {
        return false;
    }
    let mut i: usize = 0;
    while i < p.len()
        invariant
            n@ == name.spec_bytes(),
            p@ == prefix.spec_bytes(),
            p@.len() <= n@.len(),
            i <= p@.len(),
            forall|j: int| 0 <= j < i ==> n@[j] == p@[j],
        decreases p.len() - i,
    {
        if n[i] != p[i] {
            assert(n@.subrange(0, p@.len() as int)[i as int] != p@[i as int]);
            return false;
        }
        i += 1;
    }
    assert(n@.subrange(0, p@.len() as int) =~= p@);
    true
}

} // verus!
