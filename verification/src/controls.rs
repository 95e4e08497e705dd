//! What a key press asks for, and how a device's codec options are listed.

use vstd::prelude::*;

use crate::bluez::{Headphone, HeadphoneView};
use crate::pactl::{opt_view, CodecOptionView};
use crate::sort::views;
use crate::text::str_eq;

verus! {

/// A key as the terminal reports it.
#[derive(Clone, Copy, PartialEq, Eq, Structural)]
pub enum Key {
    Char(char),
    Esc,
    Up,
    Down,
    Left,
    Right,
    Other,
}

/// What a key press asks for.
#[derive(Clone, Copy, PartialEq, Eq, Structural)]
pub enum KeyCommand {
    Quit,
    Refresh,
    SelectNext,
    SelectPrevious,
    /// Step the codec of the selected device by this many options.
    CycleCodec(isize),
    /// Choose the codec option at this index (keys `1` to `9`).
    ChooseCodec(usize),
    Ignore,
}

/// What a key asks for when pressed: `q` or Esc quit, `r` refreshes, Down or
/// `j` and Up or `k` move the selection, Right or `l` and Left or `h` step the
/// codec, a digit from `1` chooses that codec option; a release asks for nothing.
pub open spec fn key_command(key: Key, pressed: bool) -> KeyCommand {
    if !pressed {
        KeyCommand::Ignore
    } else {
        match key {
            Key::Esc => KeyCommand::Quit,
            Key::Down => KeyCommand::SelectNext,
            Key::Up => KeyCommand::SelectPrevious,
            Key::Right => KeyCommand::CycleCodec(1isize),
            Key::Left => KeyCommand::CycleCodec(-1isize),
            Key::Other => KeyCommand::Ignore,
            Key::Char(c) => if c == 'q' {
                KeyCommand::Quit
            } else if c == 'r' {
                KeyCommand::Refresh
            } else if c == 'j' {
                KeyCommand::SelectNext
            } else if c == 'k' {
                KeyCommand::SelectPrevious
            } else if c == 'l' {
                KeyCommand::CycleCodec(1isize)
            } else if c == 'h' {
                KeyCommand::CycleCodec(-1isize)
            } else if '1' <= c && c <= '9' {
                KeyCommand::ChooseCodec(((c as u32) - ('1' as u32)) as usize)
            } else {
                KeyCommand::Ignore
            },
        }
    }
}

/// What a key press or release asks for.
pub fn command_for_key(key: Key, pressed: bool) -> (r: KeyCommand)
    ensures
        r == key_command(key, pressed),
{
    if !pressed {
        return KeyCommand::Ignore;
    }
    match key {
        Key::Esc => KeyCommand::Quit,
        Key::Down => KeyCommand::SelectNext,
        Key::Up => KeyCommand::SelectPrevious,
        Key::Right => KeyCommand::CycleCodec(1),
        Key::Left => KeyCommand::CycleCodec(-1),
        Key::Other => KeyCommand::Ignore,
        Key::Char(c) => {
            if c == 'q' {
                KeyCommand::Quit
            } else if c == 'r' {
                KeyCommand::Refresh
            } else if c == 'j' {
                KeyCommand::SelectNext
            } else if c == 'k' {
                KeyCommand::SelectPrevious
            } else if c == 'l' {
                KeyCommand::CycleCodec(1)
            } else if c == 'h' {
                KeyCommand::CycleCodec(-1)
            } else if '1' <= c && c <= '9' {
                let d: u32 = (c as u32) - ('1' as u32);
                KeyCommand::ChooseCodec(d as usize)
            } else {
                KeyCommand::Ignore
            }
        },
    }
}

/// How one codec option is listed: marked with `*` where it is the active profile.
pub open spec fn choice_text(active: Option<Seq<char>>, option: CodecOptionView) -> Seq<char> {
    if active == Some(option.profile) {
        "*"@ + option.label
    } else {
        option.label
    }
}

/// The options listed one after another, separated by `, `.
pub open spec fn joined_choices(active: Option<Seq<char>>, options: Seq<CodecOptionView>) -> Seq<
    char,
>
    decreases options.len(),
{
    if options.len() == 0 {
        Seq::empty()
    } else if options.len() == 1 {
        choice_text(active, options[0])
    } else {
        joined_choices(active, options.drop_last()) + ", "@ + choice_text(active, options.last())
    }
}

/// The codec column of a device: its options, the active one marked, or `-`.
pub open spec fn codec_choices_spec(device: HeadphoneView) -> Seq<char> {
    if device.codec_options.len() == 0 {
        "-"@
    } else {
        joined_choices(device.active_profile, device.codec_options)
    }
}

/// The codec column of a device in the headphone table.
pub fn codec_choices(device: &Headphone) -> (r: String)
    ensures
        r@ == codec_choices_spec(device@),
{
    let n = device.codec_options.len();
    if n == 0 {
        return "-".to_owned();
    }
    let ghost ov = views(device.codec_options@);
    let mut r = String::new();
    let mut i: usize = 0;
    while i < n
        invariant
            n == device.codec_options@.len(),
            0 < n,
            i <= n,
            ov == views(device.codec_options@),
            r@ == joined_choices(device@.active_profile, ov.subrange(0, i as int)),
        decreases n - i,
    {
        let option = &device.codec_options[i];
        assert(ov[i as int] == option@);
        if i > 0 {
            r.append(", ");
        }
        let active = match &device.active_profile {
            Some(p) => str_eq(p.as_str(), option.profile.as_str()),
            None => false,
        };
        assert(active == (opt_view(device.active_profile) == Some(option.profile@)));
        if active {
            r.append("*");
        }
        r.append(option.label.as_str());
        proof {
            let prefix = ov.subrange(0, i + 1);
            assert(prefix.drop_last() =~= ov.subrange(0, i as int));
            assert(prefix.last() == ov[i as int]);
            if i == 0 {
                assert(ov.subrange(0, 0) =~= Seq::<CodecOptionView>::empty());
                assert(r@ =~= choice_text(device@.active_profile, ov[0]));
            } else {
                assert(r@ =~= joined_choices(device@.active_profile, ov.subrange(0, i as int))
                    + ", "@ + choice_text(device@.active_profile, ov[i as int]));
            }
        }
        i = i + 1;
    }
    assert(ov.subrange(0, n as int) =~= ov);
    r
}

} // verus!
