//! Audio cards and sinks as `pactl --format=json list cards|sinks` reports them.

use vstd::prelude::*;

use crate::codec::{
    codec_from_description, codec_from_description_spec, codec_from_profile,
    codec_from_profile_spec, display_codec, display_codec_spec, normalized_address,
    normalized_address_spec,
};
use crate::json::{
    json_array_from_bytes, json_bool, json_get, json_i64, json_object, json_str, json_u64, member,
    member_of, parse_json_array, JsonValue,
};
use crate::sort::{lemma_views_push, stable_sort, stable_sorted, views, Ranked};
use crate::text::{lemma_lex_transitive, lemma_lex_trichotomy, lex_le, lex_less, lex_lt, str_eq};

verus! {

/// A card profile that selects a codec, with the codec's display name.
pub struct CodecOption {
    pub label: String,
    pub profile: String,
}

pub struct CodecOptionView {
    pub label: Seq<char>,
    pub profile: Seq<char>,
}

impl View for CodecOption {
    type V = CodecOptionView;

    open spec fn view(&self) -> CodecOptionView {
        CodecOptionView { label: self.label@, profile: self.profile@ }
    }
}

impl CodecOption {
    /// A copy of this option.
    pub fn duplicate(&self) -> (r: CodecOption)
        ensures
            r@ == self@,
    {
        CodecOption { label: self.label.clone(), profile: self.profile.clone() }
    }
}

/// The view of an optional string.
pub open spec fn opt_view(o: Option<String>) -> Option<Seq<char>> {
    match o {
        Some(s) => Some(s@),
        None => None,
    }
}

/// A copy of an optional string.
pub fn copy_opt(o: &Option<String>) -> (r: Option<String>)
    ensures
        opt_view(r) == opt_view(*o),
{
    match o {
        Some(s) => Some(s.clone()),
        None => None,
    }
}

/// What the audio server knows of one Bluetooth device: its card, the card's
/// active profile, the codec in use and the profiles that select a codec.
pub struct AudioCard {
    pub card_name: String,
    pub active_profile: Option<String>,
    pub codec: Option<String>,
    pub codec_options: Vec<CodecOption>,
}

pub struct AudioCardView {
    pub card_name: Seq<char>,
    pub active_profile: Option<Seq<char>>,
    pub codec: Option<Seq<char>>,
    pub codec_options: Seq<CodecOptionView>,
}

impl View for AudioCard {
    type V = AudioCardView;

    open spec fn view(&self) -> AudioCardView {
        AudioCardView {
            card_name: self.card_name@,
            active_profile: opt_view(self.active_profile),
            codec: opt_view(self.codec),
            codec_options: views(self.codec_options@),
        }
    }
}

/// The card that nothing is known of.
pub open spec fn empty_card() -> AudioCardView {
    AudioCardView {
        card_name: Seq::empty(),
        active_profile: None,
        codec: None,
        codec_options: Seq::empty(),
    }
}

impl AudioCard {
    /// The card that nothing is known of.
    pub fn empty() -> (r: AudioCard)
        ensures
            r@ == empty_card(),
    {
        let r = AudioCard {
            card_name: String::new(),
            active_profile: None,
            codec: None,
            codec_options: Vec::new(),
        };
        assert(views(r.codec_options@) =~= Seq::<CodecOptionView>::empty());
        r
    }
}

/// The card of the first entry with key `key`.
pub open spec fn card_lookup(entries: Seq<(String, AudioCard)>, key: Seq<char>) -> Option<
    AudioCardView,
>
    decreases entries.len(),
{
    if entries.len() == 0 {
        None
    } else if entries[0].0@ == key {
        Some(entries[0].1@)
    } else {
        card_lookup(entries.drop_first(), key)
    }
}

/// Audio cards by normalized Bluetooth address.
pub struct AudioCards {
    entries: Vec<(String, AudioCard)>,
}

impl View for AudioCards {
    type V = Map<Seq<char>, AudioCardView>;

    closed spec fn view(&self) -> Map<Seq<char>, AudioCardView> {
        Map::new(
            |k: Seq<char>| card_lookup(self.entries@, k) is Some,
            |k: Seq<char>| card_lookup(self.entries@, k).unwrap(),
        )
    }
}

proof fn lemma_lookup_first(entries: Seq<(String, AudioCard)>, key: Seq<char>, i: int)
    requires
        0 <= i <= entries.len(),
        forall|j: int| 0 <= j < i ==> (#[trigger] entries[j]).0@ != key,
    ensures
        i < entries.len() && entries[i].0@ == key ==> card_lookup(entries, key) == Some(
            entries[i].1@,
        ),
        i == entries.len() ==> card_lookup(entries, key) is None,
    decreases i,
{
    if i > 0 {
        let t = entries.drop_first();
        assert forall|j: int| 0 <= j < i - 1 implies (#[trigger] t[j]).0@ != key by {
            assert(t[j] == entries[j + 1]);
        }
        lemma_lookup_first(t, key, i - 1);
        assert(entries[0].0@ != key);
    }
}

proof fn lemma_lookup_update(
    entries: Seq<(String, AudioCard)>,
    i: int,
    e: (String, AudioCard),
    k: Seq<char>,
)
    requires
        0 <= i < entries.len(),
        entries[i].0@ == e.0@,
        forall|j: int| 0 <= j < i ==> (#[trigger] entries[j]).0@ != e.0@,
    ensures
        card_lookup(entries.update(i, e), k) == if k == e.0@ {
            Some(e.1@)
        } else {
            card_lookup(entries, k)
        },
    decreases i,
{
    let u = entries.update(i, e);
    if i == 0 {
        assert(u.drop_first() =~= entries.drop_first());
        assert(u[0] == e);
    } else {
        let t = entries.drop_first();
        assert forall|j: int| 0 <= j < i - 1 implies (#[trigger] t[j]).0@ != e.0@ by {
            assert(t[j] == entries[j + 1]);
        }
        lemma_lookup_update(t, i - 1, e, k);
        assert(u.drop_first() =~= t.update(i - 1, e));
        assert(entries[0].0@ != e.0@);
        assert(u[0] == entries[0]);
    }
}

proof fn lemma_lookup_push(entries: Seq<(String, AudioCard)>, e: (String, AudioCard), k: Seq<char>)
    ensures
        card_lookup(entries.push(e), k) == match card_lookup(entries, k) {
            Some(v) => Some(v),
            None => if e.0@ == k {
                Some(e.1@)
            } else {
                None
            },
        },
    decreases entries.len(),
{
    let p = entries.push(e);
    if entries.len() == 0 {
        assert(card_lookup(entries, k) is None);
        assert(p[0] == e);
        if e.0@ != k {
            assert(p.drop_first() =~= Seq::<(String, AudioCard)>::empty());
            assert(card_lookup(p.drop_first(), k) is None);
        }
    } else {
        assert(p[0] == entries[0]);
        if entries[0].0@ != k {
            lemma_lookup_push(entries.drop_first(), e, k);
            assert(p.drop_first() =~= entries.drop_first().push(e));
        }
    }
}

/// The card known under `key`, with the codec set to `codec`; a card that nothing
/// is known of where there is none.
pub open spec fn with_codec(m: Map<Seq<char>, AudioCardView>, key: Seq<char>, codec: Seq<char>) -> Map<
    Seq<char>,
    AudioCardView,
> {
    let card = if m.contains_key(key) {
        m[key]
    } else {
        empty_card()
    };
    m.insert(key, AudioCardView { codec: Some(codec), ..card })
}

impl AudioCards {
    /// No cards.
    pub fn new() -> (r: AudioCards)
        ensures
            r@ == Map::<Seq<char>, AudioCardView>::empty(),
    {
        let r = AudioCards { entries: Vec::new() };
        assert(r@ =~= Map::<Seq<char>, AudioCardView>::empty());
        r
    }

    fn position(&self, key: &str) -> (r: Option<usize>)
        ensures
            match r {
                Some(i) => i < self.entries@.len() && self.entries@[i as int].0@ == key@
                    && forall|j: int| 0 <= j < i ==> (#[trigger] self.entries@[j]).0@ != key@,
                None => forall|j: int|
                    0 <= j < self.entries@.len() ==> (#[trigger] self.entries@[j]).0@ != key@,
            },
    {
        let mut i: usize = 0;
        while i < self.entries.len()
            invariant
                i <= self.entries@.len(),
                forall|j: int| 0 <= j < i ==> (#[trigger] self.entries@[j]).0@ != key@,
            decreases self.entries.len() - i,
        {
            if str_eq(self.entries[i].0.as_str(), key) {
                return Some(i);
            }
            i = i + 1;
        }
        None
    }

    /// The card known under `key`.
    pub fn get(&self, key: &str) -> (r: Option<&AudioCard>)
        ensures
            match r {
                Some(card) => self@.contains_key(key@) && self@[key@] == card@,
                None => !self@.contains_key(key@),
            },
    {
        match self.position(key) {
            Some(i) => {
                proof {
                    lemma_lookup_first(self.entries@, key@, i as int);
                }
                Some(&self.entries[i].1)
            },
            None => {
                proof {
                    lemma_lookup_first(self.entries@, key@, self.entries@.len() as int);
                }
                None
            },
        }
    }

    /// Puts `card` under `key`, in place of any card known there.
    pub fn insert(&mut self, key: String, card: AudioCard)
        ensures
            final(self)@ == old(self)@.insert(key@, card@),
    {
        let ghost old_entries = self.entries@;
        let ghost k = key@;
        let ghost c = card@;
        match self.position(key.as_str()) {
            Some(i) => {
                self.entries.set(i, (key, card));
                proof {
                    assert forall|q: Seq<char>| #[trigger]
                        card_lookup(self.entries@, q) == if q == k {
                            Some(c)
                        } else {
                            card_lookup(old_entries, q)
                        } by {
                        lemma_lookup_update(old_entries, i as int, self.entries@[i as int], q);
                    }
                }
            },
            None => {
                self.entries.push((key, card));
                proof {
                    lemma_lookup_first(old_entries, k, old_entries.len() as int);
                    assert forall|q: Seq<char>| #[trigger]
                        card_lookup(self.entries@, q) == if q == k {
                            Some(c)
                        } else {
                            card_lookup(old_entries, q)
                        } by {
                        lemma_lookup_push(old_entries, self.entries@.last(), q);
                        assert(self.entries@ == old_entries.push(self.entries@.last()));
                    }
                }
            },
        }
        assert(self@ =~= old(self)@.insert(k, c));
    }

    /// Sets the codec of the card known under `key`, starting from a card that
    /// nothing is known of where there is none.
    pub fn set_codec(&mut self, key: String, codec: String)
        ensures
            final(self)@ == with_codec(old(self)@, key@, codec@),
    {
        let card = match self.get(key.as_str()) {
            Some(existing) => AudioCard {
                card_name: existing.card_name.clone(),
                active_profile: copy_opt(&existing.active_profile),
                codec: Some(codec),
                codec_options: copy_options(&existing.codec_options),
            },
            None => {
                let mut fresh = AudioCard::empty();
                fresh.codec = Some(codec);
                fresh
            },
        };
        self.insert(key, card);
    }
}

/// A copy of a list of codec options.
pub fn copy_options(options: &Vec<CodecOption>) -> (r: Vec<CodecOption>)
    ensures
        views(r@) == views(options@),
{
    let mut r: Vec<CodecOption> = Vec::new();
    let mut i: usize = 0;
    while i < options.len()
        invariant
            i <= options@.len(),
            views(r@) == views(options@).subrange(0, i as int),
        decreases options.len() - i,
    {
        let ghost before = r@;
        r.push(options[i].duplicate());
        proof {
            lemma_views_push(before, r@.last());
            assert(r@ == before.push(r@.last()));
        }
        assert(views(r@) =~= views(options@).subrange(0, i + 1));
        i = i + 1;
    }
    assert(views(options@).subrange(0, options@.len() as int) =~= views(options@));
    r
}

/// A codec option with the priority that the audio server gives its profile.
pub struct PrioritizedOption {
    pub priority: i64,
    pub option: CodecOption,
}

impl View for PrioritizedOption {
    type V = (i64, CodecOptionView);

    open spec fn view(&self) -> (i64, CodecOptionView) {
        (self.priority, self.option@)
    }
}

impl Ranked for PrioritizedOption {
    /// Higher priority first; equal priorities by label.
    open spec fn ranked_le(a: (i64, CodecOptionView), b: (i64, CodecOptionView)) -> bool {
        a.0 > b.0 || (a.0 == b.0 && lex_le(a.1.label, b.1.label))
    }

    fn ranks_before_or_with(&self, other: &Self) -> (r: bool) {
        self.priority > other.priority || (self.priority == other.priority && !lex_less(
            other.option.label.as_str(),
            self.option.label.as_str(),
        ))
    }

    proof fn lemma_ranked_total(a: (i64, CodecOptionView), b: (i64, CodecOptionView)) {
        lemma_lex_trichotomy(a.1.label, b.1.label);
    }

    proof fn lemma_ranked_transitive(
        a: (i64, CodecOptionView),
        b: (i64, CodecOptionView),
        c: (i64, CodecOptionView),
    ) {
        if a.0 == b.0 && b.0 == c.0 {
            lemma_lex_trichotomy(a.1.label, c.1.label);
            lemma_lex_trichotomy(a.1.label, b.1.label);
            lemma_lex_trichotomy(b.1.label, c.1.label);
            if lex_lt(c.1.label, a.1.label) {
                if lex_lt(c.1.label, b.1.label) {
                    lemma_lex_transitive(b.1.label, a.1.label, b.1.label);
                } else if c.1.label == b.1.label {
                } else {
                    lemma_lex_transitive(b.1.label, c.1.label, a.1.label);
                }
            }
        }
    }
}

/// A profile as a codec option: only an available profile with sinks other than
/// `off`, labelled by the codec its description names or else the codec its name
/// ends in, ranked by its priority (0 where it has none).
pub open spec fn profile_option(name: Seq<char>, data: JsonValue) -> Option<(i64, CodecOptionView)> {
    let available = match json_bool(json_get(data, "available"@)) {
        Some(b) => b,
        None => false,
    };
    let sinks = match json_u64(json_get(data, "sinks"@)) {
        Some(n) => n,
        None => 0,
    };
    if !available || sinks == 0 || name == "off"@ {
        None
    } else {
        let described = match json_str(json_get(data, "description"@)) {
            Some(d) => codec_from_description_spec(d),
            None => None,
        };
        let label = match described {
            Some(l) => Some(l),
            None => codec_from_profile_spec(name),
        };
        let priority = match json_i64(json_get(data, "priority"@)) {
            Some(p) => p,
            None => 0,
        };
        match label {
            Some(l) => Some((priority, CodecOptionView { label: l, profile: name })),
            None => None,
        }
    }
}

/// The codec options of the profiles, in profile order.
pub open spec fn prioritized_options(profiles: Seq<(String, JsonValue)>) -> Seq<
    (i64, CodecOptionView),
>
    decreases profiles.len(),
{
    if profiles.len() == 0 {
        Seq::empty()
    } else {
        let rest = prioritized_options(profiles.drop_last());
        match profile_option(profiles.last().0@, profiles.last().1) {
            Some(p) => rest.push(p),
            None => rest,
        }
    }
}

/// The codec options of the profiles, highest priority first, equal priorities by label.
pub open spec fn codec_options_spec(profiles: Seq<(String, JsonValue)>) -> Seq<CodecOptionView> {
    stable_sorted::<PrioritizedOption>(prioritized_options(profiles)).map_values(
        |p: (i64, CodecOptionView)| p.1,
    )
}

fn profile_option_exec(name: &String, data: &JsonValue) -> (r: Option<PrioritizedOption>)
    ensures
        match r {
            Some(p) => profile_option(name@, *data) == Some(p@),
            None => profile_option(name@, *data) is None,
        },
{
    let available = match data.get("available") {
        Some(v) => match v.as_bool() {
            Some(b) => b,
            None => false,
        },
        None => false,
    };
    let sinks = match data.get("sinks") {
        Some(v) => match v.as_u64() {
            Some(n) => n,
            None => 0,
        },
        None => 0,
    };
    if !available || sinks == 0 || str_eq(name.as_str(), "off") {
        return None;
    }
    let described = match data.get("description") {
        Some(v) => match v.as_str() {
            Some(d) => codec_from_description(d.as_str()),
            None => None,
        },
        None => None,
    };
    let label = match described {
        Some(l) => Some(l),
        None => codec_from_profile(name.as_str()),
    };
    let priority = match data.get("priority") {
        Some(v) => match v.as_i64() {
            Some(p) => p,
            None => 0,
        },
        None => 0,
    };
    match label {
        Some(l) => Some(
            PrioritizedOption { priority, option: CodecOption { label: l, profile: name.clone() } },
        ),
        None => None,
    }
}

/// The codec options that a card's profiles offer, highest priority first and
/// equal priorities by label.
pub fn codec_options_from_profiles(profiles: &Vec<(String, JsonValue)>) -> (r: Vec<CodecOption>)
    ensures
        views(r@) == codec_options_spec(profiles@),
{
    let mut found: Vec<PrioritizedOption> = Vec::new();
    let mut i: usize = 0;
    while i < profiles.len()
        invariant
            i <= profiles@.len(),
            views(found@) == prioritized_options(profiles@.subrange(0, i as int)),
        decreases profiles.len() - i,
    {
        let ghost before = views(found@);
        assert(profiles@.subrange(0, i + 1).drop_last() =~= profiles@.subrange(0, i as int));
        assert(profiles@.subrange(0, i + 1).last() == profiles@[i as int]);
        match profile_option_exec(&profiles[i].0, &profiles[i].1) {
            Some(p) => {
                found.push(p);
                assert(views(found@) =~= before.push(found@.last()@));
            },
            None => {},
        }
        i = i + 1;
    }
    assert(profiles@.subrange(0, profiles@.len() as int) =~= profiles@);
    let sorted = stable_sort(found);
    let ghost sorted_views = views(sorted@);
    let mut r: Vec<CodecOption> = Vec::new();
    let mut j: usize = 0;
    while j < sorted.len()
        invariant
            j <= sorted@.len(),
            sorted_views == views(sorted@),
            views(r@) == sorted_views.map_values(|p: (i64, CodecOptionView)| p.1).subrange(
                0,
                j as int,
            ),
        decreases sorted.len() - j,
    {
        let ghost before = r@;
        r.push(sorted[j].option.duplicate());
        proof {
            lemma_views_push(before, r@.last());
            assert(r@ == before.push(r@.last()));
            assert(sorted_views[j as int] == sorted@[j as int]@);
        }
        assert(views(r@) =~= sorted_views.map_values(|p: (i64, CodecOptionView)| p.1).subrange(
            0,
            j + 1,
        ));
        j = j + 1;
    }
    assert(sorted_views.map_values(|p: (i64, CodecOptionView)| p.1).subrange(
        0,
        sorted@.len() as int,
    ) =~= sorted_views.map_values(|p: (i64, CodecOptionView)| p.1));
    r
}

/// A property that is a non-empty string, as `string_property` reads it.
pub open spec fn string_property_spec(properties: Seq<(String, JsonValue)>, key: Seq<char>) -> Option<
    Seq<char>,
> {
    match json_str(member(properties, key)) {
        Some(s) => if s.len() > 0 {
            Some(s)
        } else {
            None
        },
        None => None,
    }
}

/// The property `key` where it is a non-empty string.
pub fn string_property(properties: &Vec<(String, JsonValue)>, key: &str) -> (r: Option<String>)
    ensures
        opt_view(r) == string_property_spec(properties@, key@),
{
    match member_of(properties, key) {
        Some(v) => match v.as_str() {
            Some(s) => if !s.as_str().is_empty() {
                Some(s.clone())
            } else {
                None
            },
            None => None,
        },
        None => None,
    }
}

/// The Bluetooth address that properties give: `api.bluez5.address`, else `device.string`.
pub open spec fn property_address(properties: Seq<(String, JsonValue)>) -> Option<Seq<char>> {
    match string_property_spec(properties, "api.bluez5.address"@) {
        Some(a) => Some(a),
        None => string_property_spec(properties, "device.string"@),
    }
}

fn property_address_exec(properties: &Vec<(String, JsonValue)>) -> (r: Option<String>)
    ensures
        opt_view(r) == property_address(properties@),
{
    match string_property(properties, "api.bluez5.address") {
        Some(a) => Some(a),
        None => string_property(properties, "device.string"),
    }
}

/// The codec that a card's active profile selects: the label of the option with
/// that profile, else the codec the profile name ends in.
pub open spec fn active_codec(active: Option<Seq<char>>, options: Seq<CodecOptionView>) -> Option<
    Seq<char>,
> {
    match active {
        None => None,
        Some(p) => if exists|i: int| 0 <= i < options.len() && options[i].profile == p {
            Some(options[first_with_profile(options, p)].label)
        } else {
            codec_from_profile_spec(p)
        },
    }
}

/// The first index of an option with profile `p`.
pub open spec fn first_with_profile(options: Seq<CodecOptionView>, p: Seq<char>) -> int {
    choose|i: int|
        0 <= i < options.len() && options[i].profile == p && forall|j: int|
            0 <= j < i ==> (#[trigger] options[j]).profile != p
}

/// The address and card that one entry of `pactl list cards` gives, where it has
/// a name, properties and an address.
pub open spec fn card_entry(card: JsonValue) -> Option<(Seq<char>, AudioCardView)> {
    match json_str(json_get(card, "name"@)) {
        None => None,
        Some(card_name) => match json_object(json_get(card, "properties"@)) {
            None => None,
            Some(properties) => match property_address(properties) {
                None => None,
                Some(address) => {
                    let active = json_str(json_get(card, "active_profile"@));
                    let options = match json_object(json_get(card, "profiles"@)) {
                        Some(profiles) => codec_options_spec(profiles),
                        None => Seq::empty(),
                    };
                    Some(
                        (
                            normalized_address_spec(address),
                            AudioCardView {
                                card_name,
                                active_profile: active,
                                codec: active_codec(active, options),
                                codec_options: options,
                            },
                        ),
                    )
                },
            },
        },
    }
}

/// The cards known after each entry of `pactl list cards`, in order, is put under its address.
pub open spec fn cards_after(m: Map<Seq<char>, AudioCardView>, cards: Seq<JsonValue>) -> Map<
    Seq<char>,
    AudioCardView,
>
    decreases cards.len(),
{
    if cards.len() == 0 {
        m
    } else {
        let before = cards_after(m, cards.drop_last());
        match card_entry(cards.last()) {
            Some((address, card)) => before.insert(address, card),
            None => before,
        }
    }
}

fn active_codec_exec(active: &Option<String>, options: &Vec<CodecOption>) -> (r: Option<String>)
    ensures
        opt_view(r) == active_codec(opt_view(*active), views(options@)),
{
    match active {
        None => None,
        Some(p) => {
            let ghost ov = views(options@);
            let mut i: usize = 0;
            while i < options.len()
                invariant
                    i <= options@.len(),
                    ov == views(options@),
                    opt_view(*active) == Some(p@),
                    forall|j: int| 0 <= j < i ==> (#[trigger] ov[j]).profile != p@,
                decreases options.len() - i,
            {
                if str_eq(options[i].profile.as_str(), p.as_str()) {
                    assert(ov[i as int].profile == p@);
                    assert(0 <= i < ov.len() && ov[i as int].profile == p@ && forall|j: int|
                        0 <= j < i ==> (#[trigger] ov[j]).profile != p@);
                    let ghost f = first_with_profile(ov, p@);
                    assert(f == i as int) by {
                        assert(0 <= f < ov.len() && ov[f].profile == p@);
                        if f < i {
                        } else if f > i {
                            assert(ov[i as int].profile != p@);
                        }
                    }
                    assert(opt_view(*active) == Some(p@));
                    assert(ov[i as int] == options@[i as int]@);
                    assert(active_codec(opt_view(*active), ov) == Some(ov[i as int].label));
                    return Some(options[i].label.clone());
                }
                i = i + 1;
            }
            codec_from_profile(p.as_str())
        },
    }
}

fn card_entry_exec(card: &JsonValue) -> (r: Option<(String, AudioCard)>)
    ensures
        match r {
            Some(e) => card_entry(*card) == Some((e.0@, e.1@)),
            None => card_entry(*card) is None,
        },
{
    let card_name = match card.get("name") {
        Some(v) => match v.as_str() {
            Some(s) => s.clone(),
            None => return None,
        },
        None => return None,
    };
    let properties = match card.get("properties") {
        Some(v) => match v.as_object() {
            Some(p) => p,
            None => return None,
        },
        None => return None,
    };
    let address = match property_address_exec(properties) {
        Some(a) => normalized_address(a.as_str()),
        None => return None,
    };
    let active_profile = match card.get("active_profile") {
        Some(v) => match v.as_str() {
            Some(s) => Some(s.clone()),
            None => None,
        },
        None => None,
    };
    let codec_options = match card.get("profiles") {
        Some(v) => match v.as_object() {
            Some(profiles) => codec_options_from_profiles(profiles),
            None => Vec::new(),
        },
        None => Vec::new(),
    };
    assert(json_object(json_get(*card, "profiles"@)) is None ==> views(codec_options@)
        =~= Seq::<CodecOptionView>::empty());
    let codec = active_codec_exec(&active_profile, &codec_options);
    Some((address, AudioCard { card_name, active_profile, codec, codec_options }))
}

/// Puts the card of each entry of `pactl list cards`, in order, under its
/// normalized address.
pub fn insert_pactl_cards(cards: &mut AudioCards, values: &Vec<JsonValue>)
    ensures
        final(cards)@ == cards_after(old(cards)@, values@),
{
    let ghost start = cards@;
    let mut i: usize = 0;
    while i < values.len()
        invariant
            i <= values@.len(),
            cards@ == cards_after(start, values@.subrange(0, i as int)),
        decreases values.len() - i,
    {
        assert(values@.subrange(0, i + 1).drop_last() =~= values@.subrange(0, i as int));
        assert(values@.subrange(0, i + 1).last() == values@[i as int]);
        match card_entry_exec(&values[i]) {
            Some((address, card)) => cards.insert(address, card),
            None => {},
        }
        i = i + 1;
    }
    assert(values@.subrange(0, values@.len() as int) =~= values@);
}

/// The normalized address and display codec that one entry of `pactl list sinks`
/// gives, where its properties have an address and a codec.
pub open spec fn sink_entry(sink: JsonValue) -> Option<(Seq<char>, Seq<char>)> {
    match json_object(json_get(sink, "properties"@)) {
        None => None,
        Some(properties) => match property_address(properties) {
            None => None,
            Some(address) => {
                let codec = match string_property_spec(properties, "api.bluez5.codec"@) {
                    Some(c) => Some(c),
                    None => string_property_spec(properties, "bluetooth.codec"@),
                };
                match codec {
                    Some(c) => Some((normalized_address_spec(address), display_codec_spec(c))),
                    None => None,
                }
            },
        },
    }
}

/// The cards known after the codec of each entry of `pactl list sinks`, in order,
/// is set on the card under its address.
pub open spec fn sinks_after(m: Map<Seq<char>, AudioCardView>, sinks: Seq<JsonValue>) -> Map<
    Seq<char>,
    AudioCardView,
>
    decreases sinks.len(),
{
    if sinks.len() == 0 {
        m
    } else {
        let before = sinks_after(m, sinks.drop_last());
        match sink_entry(sinks.last()) {
            Some((address, codec)) => with_codec(before, address, codec),
            None => before,
        }
    }
}

fn sink_entry_exec(sink: &JsonValue) -> (r: Option<(String, String)>)
    ensures
        match r {
            Some(e) => sink_entry(*sink) == Some((e.0@, e.1@)),
            None => sink_entry(*sink) is None,
        },
{
    let properties = match sink.get("properties") {
        Some(v) => match v.as_object() {
            Some(p) => p,
            None => return None,
        },
        None => return None,
    };
    let address = match property_address_exec(properties) {
        Some(a) => a,
        None => return None,
    };
    let codec = match string_property(properties, "api.bluez5.codec") {
        Some(c) => c,
        None => match string_property(properties, "bluetooth.codec") {
            Some(c) => c,
            None => return None,
        },
    };
    Some((normalized_address(address.as_str()), display_codec(codec.as_str())))
}

/// Sets the codec of each entry of `pactl list sinks`, in order, on the card
/// under its normalized address.
pub fn insert_pactl_sinks(cards: &mut AudioCards, values: &Vec<JsonValue>)
    ensures
        final(cards)@ == sinks_after(old(cards)@, values@),
{
    let ghost start = cards@;
    let mut i: usize = 0;
    while i < values.len()
        invariant
            i <= values@.len(),
            cards@ == sinks_after(start, values@.subrange(0, i as int)),
        decreases values.len() - i,
    {
        assert(values@.subrange(0, i + 1).drop_last() =~= values@.subrange(0, i as int));
        assert(values@.subrange(0, i + 1).last() == values@[i as int]);
        match sink_entry_exec(&values[i]) {
            Some((address, codec)) => cards.set_codec(address, codec),
            None => {},
        }
        i = i + 1;
    }
    assert(values@.subrange(0, values@.len() as int) =~= values@);
}

/// The cards known after reading the output of `pactl --format=json list cards`:
/// unchanged where the command gave no output or its output is not a JSON array.
pub open spec fn cards_after_output(m: Map<Seq<char>, AudioCardView>, output: Option<Seq<u8>>) -> Map<
    Seq<char>,
    AudioCardView,
> {
    match output {
        Some(bytes) => match json_array_from_bytes(bytes) {
            Some(values) => cards_after(m, values),
            None => m,
        },
        None => m,
    }
}

/// The cards known after reading the output of `pactl --format=json list sinks`.
pub open spec fn sinks_after_output(m: Map<Seq<char>, AudioCardView>, output: Option<Seq<u8>>) -> Map<
    Seq<char>,
    AudioCardView,
> {
    match output {
        Some(bytes) => match json_array_from_bytes(bytes) {
            Some(values) => sinks_after(m, values),
            None => m,
        },
        None => m,
    }
}

/// The view of optional bytes.
pub open spec fn bytes_view(output: Option<&[u8]>) -> Option<Seq<u8>> {
    match output {
        Some(b) => Some(b@),
        None => None,
    }
}

/// Reads the cards that `pactl --format=json list cards` printed, where it ran
/// and succeeded (`output` is then its standard output).
pub fn read_pactl_cards(cards: &mut AudioCards, output: Option<&[u8]>)
    ensures
        final(cards)@ == cards_after_output(old(cards)@, bytes_view(output)),
{
    if let Some(bytes) = output {
        if let Some(values) = parse_json_array(bytes) {
            insert_pactl_cards(cards, &values);
        }
    }
}

/// Reads the codecs that `pactl --format=json list sinks` printed, where it ran
/// and succeeded (`output` is then its standard output).
pub fn read_pactl_sinks(cards: &mut AudioCards, output: Option<&[u8]>)
    ensures
        final(cards)@ == sinks_after_output(old(cards)@, bytes_view(output)),
{
    if let Some(bytes) = output {
        if let Some(values) = parse_json_array(bytes) {
            insert_pactl_sinks(cards, &values);
        }
    }
}

/// The audio cards by normalized Bluetooth address that the outputs of
/// `pactl list cards` and then `pactl list sinks` describe.
pub fn audio_cards_by_address(cards_output: Option<&[u8]>, sinks_output: Option<&[u8]>) -> (r:
    AudioCards)
    ensures
        r@ == sinks_after_output(
            cards_after_output(Map::empty(), bytes_view(cards_output)),
            bytes_view(sinks_output),
        ),
{
    let mut cards = AudioCards::new();
    read_pactl_cards(&mut cards, cards_output);
    read_pactl_sinks(&mut cards, sinks_output);
    cards
}

} // verus!
