//! What the outcome of `pactl` and `bluetoothctl` runs means.

use vstd::prelude::*;

use crate::state::outcome_view;
use crate::text::{concat3, contains, contains_exec, decode_lossy, trim, trim_ws, utf8_lossy};

verus! {

/// What `pactl set-card-profile` tells: success, or its trimmed error output, or
/// a fixed message where that is empty.
pub open spec fn card_profile_outcome(success: bool, stderr: Seq<u8>) -> Result<(), Seq<char>> {
    if success {
        Ok(())
    } else {
        let message = trim_ws(utf8_lossy(stderr));
        Err(
            if message.len() == 0 {
                "pactl set-card-profile failed"@
            } else {
                message
            },
        )
    }
}

/// The outcome of `pactl set-card-profile`, from whether it succeeded and its error output.
pub fn set_card_profile_result(success: bool, stderr: &[u8]) -> (r: Result<(), String>)
    ensures
        outcome_view(r) == card_profile_outcome(success, stderr@),
{
    if success {
        return Ok(());
    }
    let decoded = decode_lossy(stderr);
    let message = trim(decoded.as_str());
    if message.as_str().is_empty() {
        Err("pactl set-card-profile failed".to_owned())
    } else {
        Err(message)
    }
}

/// What `bluetoothctl disconnect` tells: success, also where the device was not
/// connected or is not known; otherwise its output, trimmed.
pub open spec fn disconnect_outcome(success: bool, stdout: Seq<u8>, stderr: Seq<u8>) -> Result<
    (),
    Seq<char>,
> {
    if success {
        Ok(())
    } else {
        let message = utf8_lossy(stdout) + utf8_lossy(stderr);
        if !contains(message, "not connected"@) && !contains(message, "No such"@) {
            Err(trim_ws(message))
        } else {
            Ok(())
        }
    }
}

/// The outcome of `bluetoothctl disconnect`, from whether it succeeded and its output.
pub fn disconnect_result(success: bool, stdout: &[u8], stderr: &[u8]) -> (r: Result<(), String>)
    ensures
        outcome_view(r) == disconnect_outcome(success, stdout@, stderr@),
{
    if success {
        return Ok(());
    }
    let out = decode_lossy(stdout);
    let err = decode_lossy(stderr);
    let message = concat3(out.as_str(), err.as_str(), "");
    proof {
        reveal_strlit("");
        assert(message@ =~= utf8_lossy(stdout@) + utf8_lossy(stderr@));
    }
    if !contains_exec(message.as_str(), "not connected") && !contains_exec(
        message.as_str(),
        "No such",
    ) {
        Err(trim(message.as_str()))
    } else {
        Ok(())
    }
}

/// What `bluetoothctl connect` tells: success, or its trimmed error output, or
/// its trimmed standard output where the error output is empty.
pub open spec fn connect_outcome(success: bool, stdout: Seq<u8>, stderr: Seq<u8>) -> Result<
    (),
    Seq<char>,
> {
    if success {
        Ok(())
    } else {
        let err = trim_ws(utf8_lossy(stderr));
        let out = trim_ws(utf8_lossy(stdout));
        Err(
            if err.len() == 0 {
                out
            } else {
                err
            },
        )
    }
}

/// The outcome of `bluetoothctl connect`, from whether it succeeded and its output.
pub fn connect_result(success: bool, stdout: &[u8], stderr: &[u8]) -> (r: Result<(), String>)
    ensures
        outcome_view(r) == connect_outcome(success, stdout@, stderr@),
{
    if success {
        return Ok(());
    }
    let err = trim(decode_lossy(stderr).as_str());
    let out = trim(decode_lossy(stdout).as_str());
    if err.as_str().is_empty() {
        Err(out)
    } else {
        Err(err)
    }
}

} // verus!
