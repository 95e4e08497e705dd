//! Connected Bluetooth audio devices, from what BlueZ reports of its objects.

use vstd::prelude::*;

use crate::codec::{
    audio_profiles, audio_uuid_table, looks_like_headphones, looks_like_headphones_spec,
    normalized_address, normalized_address_spec, profiles_in, strings_view,
};
use crate::pactl::{
    copy_options, copy_opt, empty_card, opt_view, AudioCardView, AudioCards, CodecOption,
    CodecOptionView,
};
use crate::sort::{stable_sort, stable_sorted, views, lemma_views_push, Ranked};
use crate::text::{
    lemma_lex_transitive, lemma_lex_trichotomy, lex_le, lex_less, lex_lt, to_lowercase,
    unicode_lowercase,
};

verus! {

/// The properties of BlueZ's `org.bluez.Device1` interface that are read, each
/// where it is present with the expected type.
pub struct DeviceProperties {
    pub connected: Option<bool>,
    pub uuids: Option<Vec<String>>,
    pub icon: Option<String>,
    pub alias: Option<String>,
    pub name: Option<String>,
    pub address: Option<String>,
}

pub struct DevicePropertiesView {
    pub connected: Option<bool>,
    pub uuids: Option<Seq<Seq<char>>>,
    pub icon: Option<Seq<char>>,
    pub alias: Option<Seq<char>>,
    pub name: Option<Seq<char>>,
    pub address: Option<Seq<char>>,
}

impl View for DeviceProperties {
    type V = DevicePropertiesView;

    open spec fn view(&self) -> DevicePropertiesView {
        DevicePropertiesView {
            connected: self.connected,
            uuids: match self.uuids {
                Some(u) => Some(strings_view(u@)),
                None => None,
            },
            icon: opt_view(self.icon),
            alias: opt_view(self.alias),
            name: opt_view(self.name),
            address: opt_view(self.address),
        }
    }
}

/// An object that BlueZ manages: its path, and its device properties where it
/// has the `org.bluez.Device1` interface.
pub struct ManagedObject {
    pub path: String,
    pub device: Option<DeviceProperties>,
}

pub struct ManagedObjectView {
    pub path: Seq<char>,
    pub device: Option<DevicePropertiesView>,
}

impl View for ManagedObject {
    type V = ManagedObjectView;

    open spec fn view(&self) -> ManagedObjectView {
        ManagedObjectView {
            path: self.path@,
            device: match self.device {
                Some(d) => Some(d@),
                None => None,
            },
        }
    }
}

/// A connected Bluetooth audio device and what the audio server knows of it.
pub struct Headphone {
    pub name: String,
    pub address: String,
    pub codec: String,
    pub card_name: Option<String>,
    pub active_profile: Option<String>,
    pub codec_options: Vec<CodecOption>,
    pub path: String,
}

pub struct HeadphoneView {
    pub name: Seq<char>,
    pub address: Seq<char>,
    pub codec: Seq<char>,
    pub card_name: Option<Seq<char>>,
    pub active_profile: Option<Seq<char>>,
    pub codec_options: Seq<CodecOptionView>,
    pub path: Seq<char>,
}

impl View for Headphone {
    type V = HeadphoneView;

    open spec fn view(&self) -> HeadphoneView {
        HeadphoneView {
            name: self.name@,
            address: self.address@,
            codec: self.codec@,
            card_name: opt_view(self.card_name),
            active_profile: opt_view(self.active_profile),
            codec_options: views(self.codec_options@),
            path: self.path@,
        }
    }
}

impl Ranked for Headphone {
    /// By lowercase name, then by address.
    open spec fn ranked_le(a: HeadphoneView, b: HeadphoneView) -> bool {
        let la = unicode_lowercase(a.name);
        let lb = unicode_lowercase(b.name);
        lex_lt(la, lb) || (la == lb && lex_le(a.address, b.address))
    }

    fn ranks_before_or_with(&self, other: &Self) -> (r: bool) {
        let la = to_lowercase(self.name.as_str());
        let lb = to_lowercase(other.name.as_str());
        if lex_less(la.as_str(), lb.as_str()) {
            true
        } else if lex_less(lb.as_str(), la.as_str()) {
            false
        } else {
            proof {
                lemma_lex_trichotomy(la@, lb@);
            }
            !lex_less(other.address.as_str(), self.address.as_str())
        }
    }

    proof fn lemma_ranked_total(a: HeadphoneView, b: HeadphoneView) {
        lemma_lex_trichotomy(unicode_lowercase(a.name), unicode_lowercase(b.name));
        lemma_lex_trichotomy(a.address, b.address);
    }

    proof fn lemma_ranked_transitive(a: HeadphoneView, b: HeadphoneView, c: HeadphoneView) {
        let la = unicode_lowercase(a.name);
        let lb = unicode_lowercase(b.name);
        let lc = unicode_lowercase(c.name);
        lemma_lex_trichotomy(la, lc);
        lemma_lex_trichotomy(la, lb);
        lemma_lex_trichotomy(lb, lc);
        if lex_lt(la, lb) && lex_lt(lb, lc) {
            lemma_lex_transitive(la, lb, lc);
        }
        if la == lb && lb == lc {
            lemma_lex_trichotomy(a.address, c.address);
            lemma_lex_trichotomy(a.address, b.address);
            lemma_lex_trichotomy(b.address, c.address);
            if lex_lt(c.address, a.address) {
                if lex_lt(c.address, b.address) {
                    lemma_lex_transitive(b.address, a.address, b.address);
                } else if c.address != b.address {
                    lemma_lex_transitive(b.address, c.address, a.address);
                }
            }
        }
    }
}

/// A device counts as audio when it offers an audio profile or has an audio icon.
pub open spec fn is_audio_device(d: DevicePropertiesView) -> bool {
    let uuids = match d.uuids {
        Some(u) => u,
        None => Seq::empty(),
    };
    let icon = match d.icon {
        Some(i) => i,
        None => Seq::empty(),
    };
    profiles_in(uuids, audio_uuid_table()).len() > 0 || looks_like_headphones_spec(icon)
}

/// The headphone that a managed object is, where it is a connected audio device:
/// named by its alias, else its name, else `Unknown device`; with address `-`
/// where it has none; and with what the audio server knows under its normalized
/// address (codec `-` and no card where it knows nothing).
pub open spec fn headphone_of(obj: ManagedObjectView, cards: Map<Seq<char>, AudioCardView>) -> Option<
    HeadphoneView,
> {
    match obj.device {
        None => None,
        Some(d) => {
            let connected = match d.connected {
                Some(b) => b,
                None => false,
            };
            if !connected || !is_audio_device(d) {
                None
            } else {
                let name = match d.alias {
                    Some(a) => a,
                    None => match d.name {
                        Some(n) => n,
                        None => "Unknown device"@,
                    },
                };
                let address = match d.address {
                    Some(a) => a,
                    None => "-"@,
                };
                let key = normalized_address_spec(address);
                let card = if cards.contains_key(key) {
                    cards[key]
                } else {
                    empty_card()
                };
                Some(
                    HeadphoneView {
                        name,
                        address,
                        codec: match card.codec {
                            Some(c) => c,
                            None => "-"@,
                        },
                        card_name: if card.card_name.len() > 0 {
                            Some(card.card_name)
                        } else {
                            None
                        },
                        active_profile: card.active_profile,
                        codec_options: card.codec_options,
                        path: obj.path,
                    },
                )
            }
        },
    }
}

/// The headphones among the objects, in object order.
pub open spec fn headphones_found(objects: Seq<ManagedObjectView>, cards: Map<Seq<char>, AudioCardView>) -> Seq<
    HeadphoneView,
>
    decreases objects.len(),
{
    if objects.len() == 0 {
        Seq::empty()
    } else {
        let rest = headphones_found(objects.drop_last(), cards);
        match headphone_of(objects.last(), cards) {
            Some(h) => rest.push(h),
            None => rest,
        }
    }
}

/// The headphones among the objects, sorted by lowercase name and then address.
pub open spec fn connected_headphones_spec(
    objects: Seq<ManagedObjectView>,
    cards: Map<Seq<char>, AudioCardView>,
) -> Seq<HeadphoneView> {
    stable_sorted::<Headphone>(headphones_found(objects, cards))
}

fn headphone_of_exec(obj: &ManagedObject, cards: &AudioCards) -> (r: Option<Headphone>)
    ensures
        match r {
            Some(h) => headphone_of(obj@, cards@) == Some(h@),
            None => headphone_of(obj@, cards@) is None,
        },
{
    let d = match &obj.device {
        Some(d) => d,
        None => return None,
    };
    let connected = match d.connected {
        Some(b) => b,
        None => false,
    };
    if !connected {
        return None;
    }
    let profiles = match &d.uuids {
        Some(u) => audio_profiles(u),
        None => audio_profiles(&Vec::new()),
    };
    proof {
        if d.uuids is None {
            assert(strings_view(Seq::<String>::empty()) =~= Seq::<Seq<char>>::empty());
        }
    }
    let audio_icon = match &d.icon {
        Some(i) => looks_like_headphones(i.as_str()),
        None => looks_like_headphones(""),
    };
    proof {
        if d.icon is None {
            assert(""@ =~= Seq::<char>::empty()) by {
                reveal_strlit("");
            }
        }
        assert(strings_view(profiles@).len() == profiles@.len());
    }
    if profiles.len() == 0 && !audio_icon {
        return None;
    }
    let name = match &d.alias {
        Some(a) => a.clone(),
        None => match &d.name {
            Some(n) => n.clone(),
            None => "Unknown device".to_owned(),
        },
    };
    let address = match &d.address {
        Some(a) => a.clone(),
        None => "-".to_owned(),
    };
    let key = normalized_address(address.as_str());
    let h = match cards.get(key.as_str()) {
        Some(card) => {
            let codec = match &card.codec {
                Some(c) => c.clone(),
                None => "-".to_owned(),
            };
            let card_name = if card.card_name.as_str().is_empty() {
                None
            } else {
                Some(card.card_name.clone())
            };
            Headphone {
                name,
                address,
                codec,
                card_name,
                active_profile: copy_opt(&card.active_profile),
                codec_options: copy_options(&card.codec_options),
                path: obj.path.clone(),
            }
        },
        None => {
            let h = Headphone {
                name,
                address,
                codec: "-".to_owned(),
                card_name: None,
                active_profile: None,
                codec_options: Vec::new(),
                path: obj.path.clone(),
            };
            assert(views(h.codec_options@) =~= Seq::<CodecOptionView>::empty());
            h
        },
    };
    Some(h)
}

/// The connected Bluetooth audio devices among the objects that BlueZ manages,
/// sorted by lowercase name and then address, with what the audio server knows of each.
pub fn connected_headphones(objects: &Vec<ManagedObject>, cards: &AudioCards) -> (r: Vec<Headphone>)
    ensures
        views(r@) == connected_headphones_spec(views(objects@), cards@),
{
    let ghost all = views(objects@);
    let mut found: Vec<Headphone> = Vec::new();
    let mut i: usize = 0;
    while i < objects.len()
        invariant
            i <= objects@.len(),
            all == views(objects@),
            views(found@) == headphones_found(all.subrange(0, i as int), cards@),
        decreases objects.len() - i,
    {
        let ghost before = found@;
        assert(all.subrange(0, i + 1).drop_last() =~= all.subrange(0, i as int));
        assert(all.subrange(0, i + 1).last() == objects@[i as int]@);
        match headphone_of_exec(&objects[i], cards) {
            Some(h) => {
                found.push(h);
                proof {
                    lemma_views_push(before, found@.last());
                    assert(found@ == before.push(found@.last()));
                }
            },
            None => {},
        }
        i = i + 1;
    }
    assert(all.subrange(0, objects@.len() as int) =~= all);
    stable_sort(found)
}

} // verus!
