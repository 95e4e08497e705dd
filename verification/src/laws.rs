//! Properties that hold across the operations of the library.

use vstd::prelude::*;

use crate::bluez::{connected_headphones_spec, headphone_of, headphones_found, Headphone, HeadphoneView, ManagedObjectView};
use crate::json::JsonValue;
use crate::codec::codec_from_profile_spec;
use crate::controls::choice_text;
use crate::pactl::{
    active_codec, card_entry, empty_card, first_with_profile, prioritized_options, sinks_after,
    AudioCardView, CodecOptionView, PrioritizedOption,
};
use crate::sort::{is_ranked, lemma_stable_sorted_is_ranked, lemma_stable_sorted_permutes, stable_sorted};
use crate::state::{
    after_switch, cycled_index, first_with_address, refreshed, selected_next, selected_previous,
    selected_codec_index_spec, selection_valid, switch_step, wants_reconnect, AppView, CodecSwitchView, SwitchAction, SwitchEventView,
    SwitchStage,
};

verus! {

broadcast use vstd::seq_lib::group_to_multiset_ensures;

/// A refresh always leaves the selection on a device, or at 0 when none was found.
pub proof fn lemma_refresh_keeps_selection_valid(
    app: AppView,
    result: Result<Seq<HeadphoneView>, Seq<char>>,
)
    ensures
        selection_valid(refreshed(app, result)),
{
}

/// Moving the selection keeps it on a device.
pub proof fn lemma_moving_keeps_selection_valid(app: AppView)
    requires
        selection_valid(app),
    ensures
        selection_valid(selected_next(app)),
        selection_valid(selected_previous(app)),
{
}

proof fn lemma_first_with_address(devices: Seq<HeadphoneView>, address: Seq<char>)
    ensures
        first_with_address(devices, address) matches Some(i) ==> 0 <= i < devices.len()
            && devices[i].address == address && forall|j: int|
            0 <= j < i ==> (#[trigger] devices[j]).address != address,
        first_with_address(devices, address) is None ==> forall|j: int|
            0 <= j < devices.len() ==> (#[trigger] devices[j]).address != address,
    decreases devices.len(),
{
    if devices.len() > 0 && devices[0].address != address {
        let t = devices.drop_first();
        lemma_first_with_address(t, address);
        assert forall|j: int| 0 < j < devices.len() implies devices[j] == t[j - 1] by {}
    }
}

/// Reading the devices again after a codec switch keeps the selection on the
/// device that was switched, where it is still there, and else on the first row.
pub proof fn lemma_after_switch_selection(
    app: AppView,
    result: Result<Seq<HeadphoneView>, Seq<char>>,
    address: Seq<char>,
    name: Seq<char>,
    option: CodecOptionView,
    used_reconnect: bool,
)
    requires
        selection_valid(app),
        result matches Ok(devices) ==> devices.len() <= usize::MAX,
    ensures
        selection_valid(after_switch(app, result, address, name, option, used_reconnect).0),
        result matches Ok(devices) ==> {
            let next = after_switch(app, result, address, name, option, used_reconnect).0;
            (exists|i: int| 0 <= i < devices.len() && devices[i].address == address)
                ==> next.devices[next.selected as int].address == address
        },
{
    if let Ok(devices) = result {
        lemma_first_with_address(devices, address);
        let next = after_switch(app, result, address, name, option, used_reconnect).0;
        if exists|i: int| 0 <= i < devices.len() && devices[i].address == address {
            let i = choose|i: int| 0 <= i < devices.len() && devices[i].address == address;
            lemma_first_with_address_found(devices, address, i);
            let f = first_with_address(devices, address).unwrap();
            assert(next.devices == devices);
            assert(next.selected as int == f);
            assert(devices[f].address == address);
        }
    }
}

proof fn lemma_first_with_address_found(devices: Seq<HeadphoneView>, address: Seq<char>, i: int)
    requires
        0 <= i < devices.len(),
        devices[i].address == address,
    ensures
        first_with_address(devices, address) is Some,
    decreases i,
{
    if devices[0].address != address {
        lemma_first_with_address_found(devices.drop_first(), address, i - 1);
    }
}

/// Every step of a codec switch keeps the selection on a device.
pub proof fn lemma_switch_step_keeps_selection_valid(
    app: AppView,
    sw: CodecSwitchView,
    event: SwitchEventView,
)
    requires
        selection_valid(app),
        event matches SwitchEventView::Refreshed(Ok(devices)) ==> devices.len() <= usize::MAX,
    ensures
        selection_valid(switch_step(app, sw, event).0),
{
    if let (SwitchStage::Refreshing { used_reconnect }, SwitchEventView::Refreshed(result)) = (
        sw.stage,
        event,
    ) {
        lemma_after_switch_selection(app, result, sw.address, sw.name, sw.option, used_reconnect);
    }
}

/// A device is reconnected at most once for a codec switch: a reconnect is asked
/// for only after a refresh that did not follow one, for an LDAC option (or one
/// with profile `a2dp-sink`); and an ignored LDAC switch is retried with one.
pub proof fn lemma_reconnect_at_most_once(app: AppView, sw: CodecSwitchView, event: SwitchEventView)
    ensures
        switch_step(app, sw, event).2 == SwitchAction::Reconnect ==> {
            &&& sw.stage == (SwitchStage::Refreshing { used_reconnect: false })
            &&& wants_reconnect(sw.option)
            &&& switch_step(app, sw, event).1.stage == SwitchStage::Reconnecting
        },
        sw.stage == (SwitchStage::Refreshing { used_reconnect: true }) ==> switch_step(
            app,
            sw,
            event,
        ).2 != SwitchAction::Reconnect,
        sw.stage == (SwitchStage::Refreshing { used_reconnect: false }) && sw.option.label
            == "LDAC"@ ==> match event {
            SwitchEventView::Refreshed(result) => !after_switch(
                app,
                result,
                sw.address,
                sw.name,
                sw.option,
                false,
            ).1 ==> switch_step(app, sw, event).2 == SwitchAction::Reconnect,
            _ => true,
        },
{
}

/// Stepping past the last codec option wraps to the first, and stepping back
/// from the first wraps to the last.
pub proof fn lemma_codec_cycle_wraps(len: int)
    requires
        len > 0,
    ensures
        cycled_index(len - 1, 1, len) == 0,
        cycled_index(0, -1, len) == len - 1,
{
    vstd::arithmetic::div_mod::lemma_fundamental_div_mod_converse(len, len, 1, 0);
    vstd::arithmetic::div_mod::lemma_fundamental_div_mod_converse(-1, len, -1, len - 1);
}

/// A switch that is over stays over: further events change nothing.
pub proof fn lemma_done_switch_is_inert(app: AppView, sw: CodecSwitchView, event: SwitchEventView)
    requires
        sw.stage == SwitchStage::Done,
    ensures
        switch_step(app, sw, event) == (app, sw, SwitchAction::Finish { refreshed: false }),
{
}

/// Stepping through the codec options lands on an option, and stepping back by
/// the same count returns to where it started.
pub proof fn lemma_codec_cycle(current: int, delta: int, len: int)
    requires
        0 <= current < len,
    ensures
        0 <= cycled_index(current, delta, len) < len,
        cycled_index(cycled_index(current, delta, len), -delta, len) == current,
{
    let next = cycled_index(current, delta, len);
    vstd::arithmetic::div_mod::lemma_mod_bound(current + delta, len);
    vstd::arithmetic::div_mod::lemma_fundamental_div_mod(current + delta, len);
    let q = (current + delta) / len;
    assert(next - delta == (-q) * len + current) by (nonlinear_arith)
        requires
            current + delta == len * q + next,
    ;
    vstd::arithmetic::div_mod::lemma_fundamental_div_mod_converse(next - delta, len, -q, current);
}

/// The headphones are listed by lowercase name, then by address, and are exactly
/// the connected audio devices among the objects.
pub proof fn lemma_headphones_ordered(
    objects: Seq<ManagedObjectView>,
    cards: Map<Seq<char>, AudioCardView>,
)
    ensures
        is_ranked::<Headphone>(connected_headphones_spec(objects, cards)),
        connected_headphones_spec(objects, cards).to_multiset() == headphones_found(
            objects,
            cards,
        ).to_multiset(),
{
    lemma_stable_sorted_is_ranked::<Headphone>(headphones_found(objects, cards));
    lemma_stable_sorted_permutes::<Headphone>(headphones_found(objects, cards));
}

proof fn lemma_found_from_objects(
    objects: Seq<ManagedObjectView>,
    cards: Map<Seq<char>, AudioCardView>,
    h: HeadphoneView,
)
    requires
        headphones_found(objects, cards).contains(h),
    ensures
        exists|k: int| 0 <= k < objects.len() && headphone_of(objects[k], cards) == Some(h),
    decreases objects.len(),
{
    let rest = headphones_found(objects.drop_last(), cards);
    let last = objects.last();
    if headphone_of(last, cards) == Some(h) {
        assert(headphone_of(objects[objects.len() - 1], cards) == Some(h));
    } else {
        if headphone_of(last, cards) is Some {
            let i = choose|i: int|
                0 <= i < headphones_found(objects, cards).len() && headphones_found(
                    objects,
                    cards,
                )[i] == h;
            assert(rest.push(headphone_of(last, cards).unwrap())[i] == h);
            assert(i < rest.len());
            assert(rest[i] == h);
        }
        assert(rest.contains(h));
        lemma_found_from_objects(objects.drop_last(), cards, h);
        let k = choose|k: int|
            0 <= k < objects.drop_last().len() && headphone_of(objects.drop_last()[k], cards)
                == Some(h);
        assert(objects[k] == objects.drop_last()[k]);
    }
}

/// Every listed headphone is what some managed object is: a connected device
/// with an audio profile or an audio icon.
pub proof fn lemma_headphones_come_from_objects(
    objects: Seq<ManagedObjectView>,
    cards: Map<Seq<char>, AudioCardView>,
    h: HeadphoneView,
)
    requires
        connected_headphones_spec(objects, cards).contains(h),
    ensures
        exists|k: int| 0 <= k < objects.len() && headphone_of(objects[k], cards) == Some(h),
{
    lemma_stable_sorted_permutes::<Headphone>(headphones_found(objects, cards));
    assert(connected_headphones_spec(objects, cards).to_multiset().count(h) > 0);
    assert(headphones_found(objects, cards).to_multiset().count(h) > 0);
    lemma_found_from_objects(objects, cards, h);
}

/// A card's codec options come highest priority first, equal priorities by
/// label, and are exactly the options its profiles offer.
pub proof fn lemma_codec_options_ordered(profiles: Seq<(String, crate::json::JsonValue)>)
    ensures
        is_ranked::<PrioritizedOption>(stable_sorted::<PrioritizedOption>(prioritized_options(profiles))),
        stable_sorted::<PrioritizedOption>(prioritized_options(profiles)).to_multiset()
            == prioritized_options(profiles).to_multiset(),
{
    lemma_stable_sorted_is_ranked::<PrioritizedOption>(prioritized_options(profiles));
    lemma_stable_sorted_permutes::<PrioritizedOption>(prioritized_options(profiles));
}

/// Reading sinks only sets codecs: every card known before stays known with the
/// same card name, active profile and codec options, and a card it adds has
/// nothing but a codec.
pub proof fn lemma_sinks_only_set_codecs(m: Map<Seq<char>, AudioCardView>, sinks: Seq<JsonValue>)
    ensures
        forall|k: Seq<char>|
            #![trigger sinks_after(m, sinks)[k]]
            m.contains_key(k) ==> {
                &&& sinks_after(m, sinks).contains_key(k)
                &&& sinks_after(m, sinks)[k].card_name == m[k].card_name
                &&& sinks_after(m, sinks)[k].active_profile == m[k].active_profile
                &&& sinks_after(m, sinks)[k].codec_options == m[k].codec_options
            },
        forall|k: Seq<char>|
            #![trigger sinks_after(m, sinks)[k]]
            sinks_after(m, sinks).contains_key(k) && !m.contains_key(k) ==> {
                &&& sinks_after(m, sinks)[k].card_name == empty_card().card_name
                &&& sinks_after(m, sinks)[k].active_profile is None
                &&& sinks_after(m, sinks)[k].codec_options == empty_card().codec_options
            },
    decreases sinks.len(),
{
    if sinks.len() > 0 {
        lemma_sinks_only_set_codecs(m, sinks.drop_last());
    }
}

/// The first option with profile `p` is the one that `first_with_profile` picks.
proof fn lemma_first_with_profile(options: Seq<CodecOptionView>, p: Seq<char>, i: int)
    requires
        0 <= i < options.len(),
        options[i].profile == p,
        forall|j: int| 0 <= j < i ==> (#[trigger] options[j]).profile != p,
    ensures
        first_with_profile(options, p) == i,
{
    let f = first_with_profile(options, p);
    assert(0 <= f < options.len() && options[f].profile == p && forall|j: int|
        0 <= j < f ==> (#[trigger] options[j]).profile != p);
    if f < i {
        assert(options[f].profile != p);
    } else if f > i {
        assert(options[i].profile != p);
    }
}

/// Where some option has profile `p`, a first such option exists.
proof fn lemma_first_profile_exists(options: Seq<CodecOptionView>, p: Seq<char>, i: int)
    requires
        0 <= i < options.len(),
        options[i].profile == p,
    ensures
        0 <= first_with_profile(options, p) <= i,
        options[first_with_profile(options, p)].profile == p,
        forall|j: int| 0 <= j < first_with_profile(options, p) ==> (#[trigger] options[j]).profile != p,
    decreases i,
{
    if exists|j: int| 0 <= j < i && options[j].profile == p {
        let j = choose|j: int| 0 <= j < i && options[j].profile == p;
        lemma_first_profile_exists(options, p, j);
    } else {
        lemma_first_with_profile(options, p, i);
    }
}

/// The codec that an active profile gives: none without one; the label of the
/// first option with that profile where there is one; and where no option has
/// it, the codec the profile name ends in (none for `off`). No option with
/// another profile ever lends its label.
pub proof fn lemma_active_codec(active: Option<Seq<char>>, options: Seq<CodecOptionView>)
    ensures
        match active {
            None => active_codec(active, options) is None,
            Some(p) => {
                &&& (forall|j: int| 0 <= j < options.len() ==> (#[trigger] options[j]).profile != p)
                    ==> active_codec(active, options) == codec_from_profile_spec(p)
                &&& forall|i: int|
                    0 <= i < options.len() && (#[trigger] options[i]).profile == p && (forall|j: int|
                        0 <= j < i ==> (#[trigger] options[j]).profile != p) ==> active_codec(
                        active,
                        options,
                    ) == Some(options[i].label)
                &&& forall|i: int|
                    0 <= i < options.len() && (#[trigger] options[i]).profile == p ==> exists|k: int|
                        0 <= k <= i && (#[trigger] options[k]).profile == p && active_codec(
                            active,
                            options,
                        ) == Some(options[k].label)
            },
        },
{
    if let Some(p) = active {
        assert forall|i: int|
            0 <= i < options.len() && (#[trigger] options[i]).profile == p && (forall|j: int|
                0 <= j < i ==> (#[trigger] options[j]).profile != p) implies active_codec(
            active,
            options,
        ) == Some(options[i].label) by {
            lemma_first_with_profile(options, p, i);
        }
        assert forall|i: int| 0 <= i < options.len() && (#[trigger] options[i]).profile == p implies exists|k: int|
            0 <= k <= i && (#[trigger] options[k]).profile == p && active_codec(active, options)
                == Some(options[k].label) by {
            lemma_first_profile_exists(options, p, i);
            let f = first_with_profile(options, p);
            assert(options[f].profile == p);
        }
    }
}

/// A card read from `pactl list cards` takes its codec from its active profile
/// and its own options as `lemma_active_codec` describes.
pub proof fn lemma_card_codec_follows_active_profile(card: JsonValue)
    ensures
        card_entry(card) matches Some((address, c)) ==> c.codec == active_codec(
            c.active_profile,
            c.codec_options,
        ),
{
}

/// A card whose profile is `off` shows no codec when no option has that profile.
pub proof fn lemma_off_profile_has_no_codec()
    ensures
        codec_from_profile_spec("off"@) is None,
        codec_from_profile_spec("headset-head-unit"@) is None,
{
    reveal_strlit("off");
    reveal_strlit("headset-head-unit");
    reveal_strlit("unit");
    assert(crate::text::last_index_of("off"@, '-') is None) by {
        reveal_with_fuel(crate::text::last_index_of, 4);
    }
    let s = "headset-head-unit"@;
    assert(crate::text::last_index_of(s, '-') == Some(12int)) by {
        reveal_with_fuel(crate::text::last_index_of, 6);
    }
    assert(s.subrange(13, 17) =~= "unit"@);
}

/// A successful refresh keeps the selected row where the new list still has it,
/// moves it to the last row where the list got shorter, and to 0 on an empty list.
pub proof fn lemma_refresh_keeps_selected_row(app: AppView, devices: Seq<HeadphoneView>)
    requires
        devices.len() <= usize::MAX,
    ensures
        app.selected < devices.len() ==> refreshed(app, Ok(devices)).selected == app.selected,
        app.selected >= devices.len() > 0 ==> refreshed(app, Ok(devices)).selected
            == devices.len() - 1,
        devices.len() == 0 ==> refreshed(app, Ok(devices)).selected == 0,
        refreshed(app, Ok(devices)).devices == devices,
        refreshed(refreshed(app, Ok(devices)), Ok(devices)) == refreshed(app, Ok(devices)),
{
}

/// The current codec option of a device is the first with its active profile, and
/// the first option where it has no active profile or no option has it.
pub proof fn lemma_current_codec_option(device: HeadphoneView)
    ensures
        device.codec_options.len() == 0 <==> selected_codec_index_spec(device) is None,
        selected_codec_index_spec(device) matches Some(k) ==> 0 <= k < device.codec_options.len(),
        device.codec_options.len() > 0 ==> match device.active_profile {
            None => selected_codec_index_spec(device) == Some(0int),
            Some(p) => {
                &&& (forall|j: int|
                    0 <= j < device.codec_options.len() ==> (#[trigger] device.codec_options[j]).profile
                        != p) ==> selected_codec_index_spec(device) == Some(0int)
                &&& forall|i: int|
                    0 <= i < device.codec_options.len() && (#[trigger] device.codec_options[i]).profile
                        == p && (forall|j: int|
                        0 <= j < i ==> (#[trigger] device.codec_options[j]).profile != p)
                        ==> selected_codec_index_spec(device) == Some(i)
            },
        },
{
    let options = device.codec_options;
    if let Some(p) = device.active_profile {
        if exists|i: int| 0 <= i < options.len() && options[i].profile == p {
            let i = choose|i: int| 0 <= i < options.len() && options[i].profile == p;
            lemma_first_profile_exists(options, p, i);
        }
        assert forall|i: int|
            0 <= i < options.len() && (#[trigger] options[i]).profile == p && (forall|j: int|
                0 <= j < i ==> (#[trigger] options[j]).profile != p)
            implies selected_codec_index_spec(device) == Some(i) by {
            lemma_first_with_profile(options, p, i);
        }
    }
}

/// An option is listed with a leading `*` exactly when its profile is the active
/// profile; otherwise it is listed by its label alone. So among options with
/// distinct profiles at most one is marked.
pub proof fn lemma_choice_marks_only_the_active_profile(
    active: Option<Seq<char>>,
    option: CodecOptionView,
    other: CodecOptionView,
)
    ensures
        choice_text(active, option) == "*"@ + option.label <==> active == Some(option.profile),
        active != Some(option.profile) ==> choice_text(active, option) == option.label,
        option.profile != other.profile ==> !(choice_text(active, option) == "*"@ + option.label
            && choice_text(active, other) == "*"@ + other.label),
{
    reveal_strlit("*");
    if active != Some(option.profile) {
        assert(("*"@ + option.label).len() != option.label.len());
    }
}

/// After a codec switch the selection is on the first device with the switched
/// address, and on row 0 when the re-read list no longer has that device.
pub proof fn lemma_after_switch_selects_switched_device(
    app: AppView,
    devices: Seq<HeadphoneView>,
    address: Seq<char>,
    name: Seq<char>,
    option: CodecOptionView,
    used_reconnect: bool,
)
    requires
        devices.len() <= usize::MAX,
    ensures
        ({
            let next = after_switch(app, Ok(devices), address, name, option, used_reconnect).0;
            &&& next.devices == devices
            &&& (forall|j: int| 0 <= j < devices.len() ==> (#[trigger] devices[j]).address != address)
                ==> next.selected == 0
            &&& (exists|i: int| 0 <= i < devices.len() && (#[trigger] devices[i]).address == address)
                ==> {
                &&& next.selected < devices.len()
                &&& devices[next.selected as int].address == address
                &&& forall|j: int| 0 <= j < next.selected ==> (#[trigger] devices[j]).address != address
            }
        }),
{
    lemma_first_with_address(devices, address);
    if exists|i: int| 0 <= i < devices.len() && devices[i].address == address {
        let i = choose|i: int| 0 <= i < devices.len() && devices[i].address == address;
        lemma_first_with_address_found(devices, address, i);
    }
}

} // verus!
