//! What the library reads out of a raw node property.
//!
//! A property stays in the decoder's own type, `OwnedProperty`. The
//! contracts see nothing inside a value of it but what the two names below
//! read out: the two numeric array kinds that typed nodes are built from.

use fbx_direct::common::OwnedProperty;
use vstd::prelude::*;

verus! {

/// `fbx_direct::common::OwnedProperty`: one raw property of a node, carried
/// through as it came.
#[verifier::external_type_specification]
#[verifier::external_body]
pub struct ExOwnedProperty(OwnedProperty);

/// The bit pattern that stands for `bits` in a float array: `bits` itself,
/// unless it is a NaN (exponent all ones, fraction not zero), for which the
/// one quiet NaN `0x7fc0_0000` stands. Which NaN a machine produces or
/// keeps is not fixed, so the library tells no NaN from another.
pub open spec fn canonical(bits: u32) -> u32 {
    if bits & 0x7fff_ffff > 0x7f80_0000 {
        0x7fc0_0000
    } else {
        bits
    }
}

/// Every element replaced by the pattern that stands for it.
pub open spec fn canonical_all(floats: Seq<u32>) -> Seq<u32> {
    Seq::new(floats.len(), |i: int| canonical(floats[i]))
}

/// The float array in a property, as single-precision bit patterns with
/// every NaN in its canonical form: the elements of a 32-bit float array,
/// or those of a 64-bit float array after the decoder's own narrowing to
/// single precision. `None` for every other kind of property.
pub uninterp spec fn float_array_of(property: OwnedProperty) -> Option<Seq<u32>>;

/// The elements of a property that is an array of 32-bit signed integers.
/// `None` for every other kind of property.
pub uninterp spec fn int_array_of(property: OwnedProperty) -> Option<Seq<i32>>;

/// Calls `OwnedProperty::get_vec_f32` and turns each float of the answer
/// into its bit pattern. The decoder answers `Some` for its `VecF32` and
/// `VecF64` variants only, and narrows the elements of the latter with `as`.
///
/// Trusted: the call answers `Some` exactly where [`float_array_of`] does,
/// and the bit patterns it gives, once every NaN among them is put in its
/// canonical form, are those that [`float_array_of`] names. Of the bits of
/// a NaN as they come back nothing is claimed: a narrowing cast leaves the
/// sign and the payload of a NaN to the machine.
#[verifier::external_body]
pub(crate) fn float_array(property: &OwnedProperty) -> (bits: Option<Vec<u32>>)
    ensures
        match float_array_of(*property) {
            Some(floats) => bits matches Some(v) && canonical_all(v@) == floats,
            None => bits is None,
        },
{
    property.get_vec_f32().map(|floats| floats.iter().map(|x| x.to_bits()).collect())
}

/// The canonical form stands for itself.
pub proof fn lemma_canonical_is_idempotent(bits: u32)
    ensures
        canonical(canonical(bits)) == canonical(bits),
{
    assert(0x7fc0_0000u32 & 0x7fff_ffff > 0x7f80_0000) by (bit_vector);
}

/// Puts one bit pattern in its canonical form.
pub fn canonicalise_bits(bits: u32) -> (r: u32)
    ensures
        r == canonical(bits),
{
    if bits & 0x7fff_ffff > 0x7f80_0000 {
        0x7fc0_0000
    } else {
        bits
    }
}

/// Puts every NaN of a float array in its canonical form and leaves every
/// other element as it is.
pub fn canonicalise(floats: Vec<u32>) -> (r: Vec<u32>)
    ensures
        r@ == canonical_all(floats@),
{
    let mut floats = floats;
    let ghost before = floats@;
    let mut i: usize = 0;
    while i < floats.len()
        invariant
            i <= floats.len(),
            floats@.len() == before.len(),
            forall|j: int| 0 <= j < i ==> floats@[j] == canonical(before[j]),
            forall|j: int| i <= j < floats@.len() ==> floats@[j] == before[j],
        decreases floats.len() - i,
    {
        let bits = canonicalise_bits(floats[i]);
        floats.set(i, bits);
        i += 1;
    }
    assert(floats@ =~= canonical_all(before));
    floats
}

/// Reads the float array out of a property: the bit patterns that
/// [`float_array_of`] names, every NaN among them canonical.
pub(crate) fn float_bits(property: &OwnedProperty) -> (bits: Option<Vec<u32>>)
    ensures
        match float_array_of(*property) {
            Some(floats) => bits matches Some(v) && v@ == floats,
            None => bits is None,
        },
        bits matches Some(v) ==> canonical_all(v@) == v@,
{
    match float_array(property) {
        Some(raw) => {
            let ghost read = raw@;
            let floats = canonicalise(raw);
            proof {
                assert forall|i: int| 0 <= i < read.len() implies canonical(
                    #[trigger] canonical_all(read)[i],
                ) == canonical_all(read)[i] by {
                    lemma_canonical_is_idempotent(read[i]);
                }
                assert(canonical_all(floats@) =~= floats@);
            }
            Some(floats)
        },
        None => None,
    }
}

/// Copies the elements out of the decoder's `VecI32` variant. Trusted: the
/// result is what [`int_array_of`] names.
#[verifier::external_body]
pub(crate) fn int_array(property: &OwnedProperty) -> (ints: Option<Vec<i32>>)
    ensures
        match int_array_of(*property) {
            Some(elements) => ints matches Some(v) && v@ == elements,
            None => ints is None,
        },
{
    match property {
        OwnedProperty::VecI32(elements) => Some(elements.clone()),
        _ => None,
    }
}

} // verus!
