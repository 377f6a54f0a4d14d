//! What is checked before a frame is rendered, and the faults that the
//! checks find.

use crate::number::Number;
use vstd::prelude::*;

verus! {

/// A fault in what was handed to the ray tracer. None of them can be retried:
/// the scene, the camera or the ray has to be corrected.
#[derive(Copy, Clone, Debug, PartialEq, Eq, Structural)]
pub enum TraceError {
    /// A vector of length zero was to be normalized.
    DegenerateVector,
    /// The camera's direction and its up vector are parallel.
    DegenerateCamera,
    /// A sphere without a positive radius, or a plane whose normal is not of
    /// unit length.
    InvalidPrimitive,
    /// A ray whose direction has length zero.
    DegenerateRay,
}

/// A length is in order if it is a number between `least` and `most`, the
/// two included.
pub open spec fn within(length: Number, least: Number, most: Number) -> bool {
    !length.is_nan() && !length.less(least) && !most.less(length)
}

/// Every sphere has a positive radius, and the normal of every plane has a
/// length between `least` and `most`.
pub open spec fn scene_in_order(
    radii: Seq<Number>,
    normal_lengths: Seq<Number>,
    least: Number,
    most: Number,
) -> bool {
    &&& forall|i: int| 0 <= i < radii.len() ==> (#[trigger] radii[i]).positive()
    &&& forall|i: int|
        0 <= i < normal_lengths.len() ==> within(#[trigger] normal_lengths[i], least, most)
}

fn positive_or(length: Number, fault: TraceError) -> (checked: Result<(), TraceError>)
    ensures
        checked == if length.positive() {
            Ok::<(), TraceError>(())
        } else {
            Err(fault)
        },
{
    if length.is_positive() {
        Ok(())
    } else {
        Err(fault)
    }
}

/// Checks that a vector can be normalized: its length must be greater than
/// zero. A vector of length zero is refused as `DegenerateVector`, and so is
/// one whose length is no number.
pub fn check_vector(length: Number) -> (checked: Result<(), TraceError>)
    ensures
        length.positive() ==> checked == Ok::<(), TraceError>(()),
        !length.positive() ==> checked == Err::<(), TraceError>(TraceError::DegenerateVector),
{
    positive_or(length, TraceError::DegenerateVector)
}

/// Checks a ray by the length of its direction, which must be greater than
/// zero. Otherwise the ray is refused as `DegenerateRay`.
pub fn check_ray(direction_length: Number) -> (checked: Result<(), TraceError>)
    ensures
        direction_length.positive() ==> checked == Ok::<(), TraceError>(()),
        !direction_length.positive() ==> checked == Err::<(), TraceError>(
            TraceError::DegenerateRay,
        ),
{
    positive_or(direction_length, TraceError::DegenerateRay)
}

/// Checks a camera by the length of its right vector, the cross product of
/// its direction and its up vector. Where the two are parallel that length is
/// zero, and the camera is refused as `DegenerateCamera`.
pub fn check_camera(right_length: Number) -> (checked: Result<(), TraceError>)
    ensures
        right_length.positive() ==> checked == Ok::<(), TraceError>(()),
        !right_length.positive() ==> checked == Err::<(), TraceError>(
            TraceError::DegenerateCamera,
        ),
{
    positive_or(right_length, TraceError::DegenerateCamera)
}

/// Checks the primitives of a scene, all of them, before any ray is traced.
///
/// `radii` holds the radius of each sphere and `normal_lengths` the length of
/// each plane's normal. A radius must be greater than zero; the length of a
/// normal must be one, which it is taken to be between `least` and `most`.
/// The scene is in order exactly if all of them are; otherwise it is refused
/// as `InvalidPrimitive`.
pub fn validate_scene(
    radii: &Vec<Number>,
    normal_lengths: &Vec<Number>,
    least: Number,
    most: Number,
) -> (checked: Result<(), TraceError>)
    ensures
        scene_in_order(radii@, normal_lengths@, least, most) ==> checked == Ok::<(), TraceError>(
            (),
        ),
        !scene_in_order(radii@, normal_lengths@, least, most) ==> checked == Err::<
            (),
            TraceError,
        >(TraceError::InvalidPrimitive),
{
    let mut i: usize = 0;
    while i < radii.len()
        invariant
            i <= radii@.len(),
            forall|n: int| 0 <= n < i ==> (#[trigger] radii@[n]).positive(),
        decreases radii@.len() - i,
    {
        if !radii[i].is_positive() {
            return Err(TraceError::InvalidPrimitive);
        }
        i = i + 1;
    }
    let mut j: usize = 0;
    while j < normal_lengths.len()
        invariant
            j <= normal_lengths@.len(),
            forall|n: int| 0 <= n < radii@.len() ==> (#[trigger] radii@[n]).positive(),
            forall|n: int| 0 <= n < j ==> within(#[trigger] normal_lengths@[n], least, most),
        decreases normal_lengths@.len() - j,
    {
        let length = normal_lengths[j];
        if length.is_nan() || length.less_than(least) || most.less_than(length) {
            return Err(TraceError::InvalidPrimitive);
        }
        j = j + 1;
    }
    Ok(())
}

} // verus!
