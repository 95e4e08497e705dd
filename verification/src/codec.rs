//! Codec names, profile names and BlueZ device traits.

use vstd::prelude::*;

use crate::text::{
    chars_of, lemma_last_index_of, lemma_find_from_occurs, eq_ignore_ascii_case, eq_ignore_ascii_case_exec, find, find_chars, find_from,
    last_index_of, last_index_of_exec, occurs_at, replace_char, replace_char_in, str_eq,
    string_from_range, to_uppercase, trim_end_char, trim_end_char_range, trim_end_ws_range,
    trim_start_ws_index, trim_ws, unicode_uppercase,
};

verus! {

/// The display name that `display_codec` gives a codec identifier it knows.
pub open spec fn known_codec_name(codec: Seq<char>) -> Option<Seq<char>> {
    if codec == "sbc"@ {
        Some("SBC"@)
    } else if codec == "sbc_xq"@ {
        Some("SBC-XQ"@)
    } else if codec == "aac"@ {
        Some("AAC"@)
    } else if codec == "ldac"@ {
        Some("LDAC"@)
    } else if codec == "aptx"@ {
        Some("aptX"@)
    } else if codec == "aptx_hd"@ {
        Some("aptX HD"@)
    } else if codec == "aptx_ll"@ {
        Some("aptX LL"@)
    } else if codec == "aptx_ll_duplex"@ {
        Some("aptX LL Duplex"@)
    } else if codec == "faststream"@ {
        Some("FastStream"@)
    } else if codec == "faststream_duplex"@ {
        Some("FastStream Duplex"@)
    } else if codec == "cvsd"@ {
        Some("CVSD"@)
    } else if codec == "msbc"@ {
        Some("mSBC"@)
    } else {
        None
    }
}

/// How a codec identifier is shown: its known name, or else the identifier with
/// `_` turned into `-`, in uppercase.
pub open spec fn display_codec_spec(codec: Seq<char>) -> Seq<char> {
    match known_codec_name(codec) {
        Some(name) => name,
        None => unicode_uppercase(replace_char(codec, '_', '-')),
    }
}

/// The display name of a codec identifier such as `aptx_hd` or `ldac`.
pub fn display_codec(codec: &str) -> (r: String)
    ensures
        r@ == display_codec_spec(codec@),
{
    if str_eq(codec, "sbc") {
        "SBC".to_owned()
    } else if str_eq(codec, "sbc_xq") {
        "SBC-XQ".to_owned()
    } else if str_eq(codec, "aac") {
        "AAC".to_owned()
    } else if str_eq(codec, "ldac") {
        "LDAC".to_owned()
    } else if str_eq(codec, "aptx") {
        "aptX".to_owned()
    } else if str_eq(codec, "aptx_hd") {
        "aptX HD".to_owned()
    } else if str_eq(codec, "aptx_ll") {
        "aptX LL".to_owned()
    } else if str_eq(codec, "aptx_ll_duplex") {
        "aptX LL Duplex".to_owned()
    } else if str_eq(codec, "faststream") {
        "FastStream".to_owned()
    } else if str_eq(codec, "faststream_duplex") {
        "FastStream Duplex".to_owned()
    } else if str_eq(codec, "cvsd") {
        "CVSD".to_owned()
    } else if str_eq(codec, "msbc") {
        "mSBC".to_owned()
    } else {
        let replaced = replace_char_in(codec, '_', '-');
        to_uppercase(replaced.as_str())
    }
}

/// The key under which a Bluetooth address is looked up: `_` turned into `:`, in uppercase.
pub open spec fn normalized_address_spec(address: Seq<char>) -> Seq<char> {
    unicode_uppercase(replace_char(address, '_', ':'))
}

/// Normalizes a Bluetooth address such as `00_1b_66_aa` to `00:1B:66:AA`.
pub fn normalized_address(address: &str) -> (r: String)
    ensures
        r@ == normalized_address_spec(address@),
{
    let replaced = replace_char_in(address, '_', ':');
    to_uppercase(replaced.as_str())
}

/// The codec that a profile name ends in, after its last `-`: none when the name
/// has no `-` or ends in `sink` or `unit`.
pub open spec fn codec_from_profile_spec(profile: Seq<char>) -> Option<Seq<char>> {
    match last_index_of(profile, '-') {
        None => None,
        Some(i) => {
            let codec = profile.subrange(i + 1, profile.len() as int);
            if codec == "sink"@ || codec == "unit"@ {
                None
            } else {
                Some(display_codec_spec(codec))
            }
        },
    }
}

/// The codec named at the end of a card profile such as `a2dp-sink-aac`.
pub fn codec_from_profile(profile: &str) -> (r: Option<String>)
    ensures
        match r {
            Some(s) => codec_from_profile_spec(profile@) == Some(s@),
            None => codec_from_profile_spec(profile@) is None,
        },
{
    let cs = chars_of(profile);
    let n = cs.len();
    match last_index_of_exec(&cs, '-') {
        None => None,
        Some(i) => {
            let codec = string_from_range(&cs, i + 1, n);
            if str_eq(codec.as_str(), "sink") || str_eq(codec.as_str(), "unit") {
                None
            } else {
                Some(display_codec(codec.as_str()))
            }
        },
    }
}

/// The codec that a profile description names after its first `codec `, with
/// trailing `)`, surrounding whitespace and trailing `.` removed in that order;
/// none when there is no such marker or nothing is left.
pub open spec fn codec_from_description_spec(description: Seq<char>) -> Option<Seq<char>> {
    match find(description, "codec "@) {
        None => None,
        Some(i) => {
            let rest = description.subrange(i + "codec "@.len(), description.len() as int);
            let codec = trim_end_char(trim_ws(trim_end_char(rest, ')')), '.');
            if codec.len() == 0 {
                None
            } else {
                Some(display_codec_spec(codec))
            }
        },
    }
}

/// The codec named in a profile description such as
/// `High Fidelity Playback (A2DP Sink, codec LDAC)`.
pub fn codec_from_description(description: &str) -> (r: Option<String>)
    ensures
        match r {
            Some(s) => codec_from_description_spec(description@) == Some(s@),
            None => codec_from_description_spec(description@) is None,
        },
{
    let cs = chars_of(description);
    let marker = chars_of("codec ");
    let n = cs.len();
    match find_chars(&cs, &marker) {
        None => None,
        Some(i) => {
            let start = i + marker.len();
            let rest_end = trim_end_char_range(&cs, start, n, ')');
            let ws_end = trim_end_ws_range(&cs, start, rest_end);
            let ws_start = trim_start_ws_index(&cs, start, ws_end);
            let end = trim_end_char_range(&cs, ws_start, ws_end, '.');
            proof {
                let rest = cs@.subrange(start as int, cs@.len() as int);
                assert(trim_ws(trim_end_char(rest, ')')) == cs@.subrange(
                    ws_start as int,
                    ws_end as int,
                ));
            }
            if end == ws_start {
                None
            } else {
                let codec = string_from_range(&cs, ws_start, end);
                Some(display_codec(codec.as_str()))
            }
        },
    }
}

/// Icon names that BlueZ gives audio devices.
pub open spec fn looks_like_headphones_spec(icon: Seq<char>) -> bool {
    ||| icon == "audio-headphones"@
    ||| icon == "audio-headset"@
    ||| icon == "audio-card"@
    ||| icon == "audio-speakers"@
}

/// Whether a BlueZ icon name marks an audio device.
pub fn looks_like_headphones(icon: &str) -> (r: bool)
    ensures
        r == looks_like_headphones_spec(icon@),
{
    str_eq(icon, "audio-headphones") || str_eq(icon, "audio-headset") || str_eq(
        icon,
        "audio-card",
    ) || str_eq(icon, "audio-speakers")
}

/// The Bluetooth service UUIDs of audio profiles, each with its label.
pub open spec fn audio_uuid_table() -> Seq<(Seq<char>, Seq<char>)> {
    seq![
        ("00001108-0000-1000-8000-00805f9b34fb"@, "Headset"@),
        ("0000110b-0000-1000-8000-00805f9b34fb"@, "Audio Sink"@),
        ("0000110e-0000-1000-8000-00805f9b34fb"@, "A/V Remote"@),
        ("0000111e-0000-1000-8000-00805f9b34fb"@, "Handsfree"@),
        ("0000111f-0000-1000-8000-00805f9b34fb"@, "Handsfree Audio Gateway"@),
        ("00001203-0000-1000-8000-00805f9b34fb"@, "Generic Audio"@),
    ]
}

/// The views of a sequence of strings.
pub open spec fn strings_view(v: Seq<String>) -> Seq<Seq<char>> {
    v.map_values(|s: String| s@)
}

/// Some UUID of the device equals `uuid` when ASCII case is ignored.
pub open spec fn has_uuid(uuids: Seq<Seq<char>>, uuid: Seq<char>) -> bool {
    exists|i: int| 0 <= i < uuids.len() && eq_ignore_ascii_case(#[trigger] uuids[i], uuid)
}

/// The labels of the entries of `table` whose UUID the device has, in table order.
pub open spec fn profiles_in(uuids: Seq<Seq<char>>, table: Seq<(Seq<char>, Seq<char>)>) -> Seq<
    Seq<char>,
>
    decreases table.len(),
{
    if table.len() == 0 {
        Seq::empty()
    } else {
        let rest = profiles_in(uuids, table.drop_last());
        if has_uuid(uuids, table.last().0) {
            rest.push(table.last().1)
        } else {
            rest
        }
    }
}

/// Whether one of `uuids` equals `uuid`, ignoring ASCII case.
fn any_uuid_matches(uuids: &Vec<String>, uuid: &str) -> (r: bool)
    ensures
        r == has_uuid(strings_view(uuids@), uuid@),
{
    let mut i: usize = 0;
    while i < uuids.len()
        invariant
            i <= uuids@.len(),
            forall|j: int|
                0 <= j < i ==> !eq_ignore_ascii_case(#[trigger] strings_view(uuids@)[j], uuid@),
        decreases uuids.len() - i,
    {
        if eq_ignore_ascii_case_exec(uuids[i].as_str(), uuid) {
            assert(strings_view(uuids@)[i as int] == uuids@[i as int]@);
            return true;
        }
        i = i + 1;
    }
    false
}

/// The labels of the audio profiles among a device's service UUIDs, in the
/// order of the audio profile table.
pub fn audio_profiles(uuids: &Vec<String>) -> (r: Vec<String>)
    ensures
        strings_view(r@) == profiles_in(strings_view(uuids@), audio_uuid_table()),
{
    let mut table: Vec<(&str, &str)> = Vec::new();
    table.push(("00001108-0000-1000-8000-00805f9b34fb", "Headset"));
    table.push(("0000110b-0000-1000-8000-00805f9b34fb", "Audio Sink"));
    table.push(("0000110e-0000-1000-8000-00805f9b34fb", "A/V Remote"));
    table.push(("0000111e-0000-1000-8000-00805f9b34fb", "Handsfree"));
    table.push(("0000111f-0000-1000-8000-00805f9b34fb", "Handsfree Audio Gateway"));
    table.push(("00001203-0000-1000-8000-00805f9b34fb", "Generic Audio"));
    let ghost spec_table = audio_uuid_table();
    assert(spec_table.len() == table@.len());
    assert forall|k: int| 0 <= k < table@.len() implies #[trigger] spec_table[k] == (
        table@[k].0@,
        table@[k].1@,
    ) by {}
    let mut r: Vec<String> = Vec::new();
    let mut i: usize = 0;
    while i < table.len()
        invariant
            i <= table@.len(),
            spec_table == audio_uuid_table(),
            spec_table.len() == table@.len(),
            forall|k: int| 0 <= k < table@.len() ==> #[trigger] spec_table[k] == (
                table@[k].0@,
                table@[k].1@,
            ),
            strings_view(r@) == profiles_in(strings_view(uuids@), spec_table.subrange(0, i as int)),
        decreases table.len() - i,
    {
        let (uuid, label) = table[i];
        assert(spec_table.subrange(0, i + 1).drop_last() == spec_table.subrange(0, i as int));
        assert(spec_table.subrange(0, i + 1).last() == spec_table[i as int]);
        let ghost before = strings_view(r@);
        if any_uuid_matches(uuids, uuid) {
            r.push(label.to_owned());
            assert(strings_view(r@) =~= before.push(label@));
        }
        i = i + 1;
    }
    assert(spec_table.subrange(0, table@.len() as int) == spec_table);
    r
}

} // verus!
