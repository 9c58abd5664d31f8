//! The messages that the robot and the dashboard exchange over a stream.
//! The transport carries them serialized and never looks inside.

use vstd::prelude::*;

verus! {

/// How the drivetrain should move.
#[derive(Debug, Clone, Copy, PartialEq, Eq)]
pub enum DriveAction {
    Fwd,
    Rev,
    Stop,
}

/// A request about a video stream.
#[derive(Debug, Clone, PartialEq, Eq)]
pub enum VideoStreamAction {
    Pause,
    Resume,
    /// Opens the camera with device number `dev`; later requests name the
    /// stream by the id sent with this one.
    Init { dev: usize },
    /// Closes the stream.
    Close,
}

/// A notice about a video stream.
#[derive(Debug, Clone, PartialEq, Eq)]
pub enum VideoStreamInfo {
    Initialized,
    InitError { message: String },
    OpenCamError { message: String },
    ReadError { message: String },
    CloseError { message: String },
}

/// A motor of the motor board.
#[derive(Debug, Clone, Copy, PartialEq, Eq, Hash)]
pub enum Motor {
    Motor1,
    Motor2,
    Motor3,
    Motor4,
    Stepper1,
    Stepper2,
}

/// What went wrong with the motor board.
#[derive(Debug, Clone, Copy, PartialEq, Eq)]
pub enum MotorError {
    /// The I2C bus could not be set up.
    I2cError,
    /// The PWM controller could not be configured.
    PwmError,
    /// A channel could not be set.
    ChannelError,
    /// A throttle value was out of bounds.
    ThrottleError,
    /// A motor of the wrong kind was given.
    InvalidMotorError,
}

/// A notice about a motor.
#[derive(Debug, Clone, Copy, PartialEq, Eq)]
pub enum MotorInfo {
    InitMotorError { motor: Motor, error: MotorError },
    MotorInitialized { motor: Motor },
    UpdateMotorError { motor: Motor, error: MotorError },
}

/// Whether a key went down or up.
#[derive(Debug, Clone, Copy, PartialEq, Eq)]
pub enum KeyChange {
    Press,
    Release,
}

/// The keys of the dashboard that drive the robot.
#[derive(Debug, Clone, Copy, PartialEq, Eq)]
pub enum DriveKey {
    W,
    S,
    A,
    /// Any other key.
    Other,
}

/// The drive command for a key change: pressing W drives forward, S in
/// reverse, A stops; nothing else is a command.
pub fn handle_event(key: DriveKey, change: KeyChange) -> (r: Option<DriveAction>)
    ensures
        r == match (key, change) {
            (DriveKey::W, KeyChange::Press) => Some(DriveAction::Fwd),
            (DriveKey::S, KeyChange::Press) => Some(DriveAction::Rev),
            (DriveKey::A, KeyChange::Press) => Some(DriveAction::Stop),
            _ => None::<DriveAction>,
        },
{
    match (key, change) {
        (DriveKey::W, KeyChange::Press) => Some(DriveAction::Fwd),
        (DriveKey::S, KeyChange::Press) => Some(DriveAction::Rev),
        (DriveKey::A, KeyChange::Press) => Some(DriveAction::Stop),
        _ => None,
    }
}

} // verus!
