//! The camera: where the eye is, what it looks at, and whether either has
//! changed since anyone last asked.

use vstd::prelude::*;
use crate::scalar::Scalar;
use crate::vector::Vec3;

verus! {

/// The bit pattern of the lowest pitch, a tenth of a radian above straight
/// down: `-pi/2 + 0.1`.
pub const PITCH_MIN_BITS: u32 = 0xbfbc_430e;

/// The bit pattern of the highest pitch, a tenth of a radian below straight
/// up: `pi/2 - 0.1`.
pub const PITCH_MAX_BITS: u32 = 0x3fbc_430e;

/// The pitch held within its limits. What is not a number stays as it is.
pub open spec fn limited_pitch(pitch: Scalar) -> Scalar {
    if pitch.less_than(Scalar { bits: PITCH_MIN_BITS }) {
        Scalar { bits: PITCH_MIN_BITS }
    } else if (Scalar { bits: PITCH_MAX_BITS }).less_than(pitch) {
        Scalar { bits: PITCH_MAX_BITS }
    } else {
        pitch
    }
}

/// Keeps the pitch of an orbit away from straight up and straight down,
/// where the view would lose its sense of up.
pub fn limit_pitch(pitch: Scalar) -> (limited: Scalar)
    ensures
        limited == limited_pitch(pitch),
{
    let lowest = Scalar::from_bits(PITCH_MIN_BITS);
    let highest = Scalar::from_bits(PITCH_MAX_BITS);
    if pitch.lt(&lowest) {
        lowest
    } else if pitch.gt(&highest) {
        highest
    } else {
        pitch
    }
}

/// A pitch within the limits is left as it is, and limiting twice is
/// limiting once.
pub proof fn lemma_limited_pitch_stays(pitch: Scalar)
    ensures
        limited_pitch(limited_pitch(pitch)) == limited_pitch(pitch),
        !pitch.less_than(Scalar { bits: PITCH_MIN_BITS }) && !(Scalar {
            bits: PITCH_MAX_BITS,
        }).less_than(pitch) ==> limited_pitch(pitch) == pitch,
        !pitch.is_nan_spec() ==> !limited_pitch(pitch).less_than(Scalar { bits: PITCH_MIN_BITS })
            && !(Scalar { bits: PITCH_MAX_BITS }).less_than(limited_pitch(pitch)),
{
}

/// The view state. `has_changed` is raised by every move and lowered by
/// [`Camera::check_if_changed`], which is the one place that reads it.
#[derive(Debug, Clone, Copy, PartialEq, Eq, Structural)]
pub struct Camera {
    pub eye: Vec3,
    pub center: Vec3,
    pub up: Vec3,
    pub has_changed: bool,
}

impl Camera {
    /// The camera after its eye moved to `eye`.
    pub open spec fn with_eye(self, eye: Vec3) -> Camera {
        Camera { eye, has_changed: true, ..self }
    }

    /// The camera after its look target moved to `center`.
    pub open spec fn with_center(self, center: Vec3) -> Camera {
        Camera { center, has_changed: true, ..self }
    }

    /// The camera after a check: as it was, with the flag lowered.
    pub open spec fn checked(self) -> Camera {
        Camera { has_changed: false, ..self }
    }

    /// A new camera counts as changed, so that its first frame gets drawn.
    pub fn new(eye: Vec3, center: Vec3, up: Vec3) -> (camera: Camera)
        ensures
            camera == (Camera { eye, center, up, has_changed: true }),
    {
        Camera { eye, center, up, has_changed: true }
    }

    /// Takes the eye to where an orbit around the centre has carried it.
    pub fn orbit(&mut self, eye: Vec3)
        ensures
            *final(self) == old(self).with_eye(eye),
    {
        self.eye = eye;
        self.has_changed = true;
    }

    /// Takes the eye to where a move along the line of sight has carried it.
    pub fn zoom(&mut self, eye: Vec3)
        ensures
            *final(self) == old(self).with_eye(eye),
    {
        self.eye = eye;
        self.has_changed = true;
    }

    /// Takes the look target to where a turn of the line of sight about the
    /// eye has carried it.
    pub fn move_center(&mut self, center: Vec3)
        ensures
            *final(self) == old(self).with_center(center),
    {
        self.center = center;
        self.has_changed = true;
    }

    /// Says whether the camera has moved since the last call, and lowers the
    /// flag: of several callers only the first after a move is told `true`.
    pub fn check_if_changed(&mut self) -> (changed: bool)
        ensures
            changed == old(self).has_changed,
            *final(self) == old(self).checked(),
    {
        if self.has_changed {
            self.has_changed = false;
            true
        } else {
            false
        }
    }
}

/// A move of the eye is reported once: the check that follows it says
/// `true`, and every check after that says `false` until the next move. The
/// checks leave eye, centre and up alone.
pub proof fn lemma_eye_move_is_reported_once(camera: Camera, eye: Vec3)
    ensures
        camera.with_eye(eye).has_changed,
        !camera.with_eye(eye).checked().has_changed,
        camera.with_eye(eye).checked().checked() == camera.with_eye(eye).checked(),
        camera.with_eye(eye).checked().eye == eye,
        camera.with_eye(eye).checked().center == camera.center,
        camera.with_eye(eye).checked().up == camera.up,
{
}

/// A move of the look target is reported once, in the same way.
pub proof fn lemma_center_move_is_reported_once(camera: Camera, center: Vec3)
    ensures
        camera.with_center(center).has_changed,
        !camera.with_center(center).checked().has_changed,
        camera.with_center(center).checked().checked() == camera.with_center(center).checked(),
        camera.with_center(center).checked().eye == camera.eye,
        camera.with_center(center).checked().center == center,
        camera.with_center(center).checked().up == camera.up,
{
}

} // verus!
