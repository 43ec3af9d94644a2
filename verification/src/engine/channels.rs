//! What to do differently for a particular channel.
//!
//! A recording box watches the same dozen channels for years, and they are not
//! alike. NHK carries no advertising at all, so looking for commercial breaks
//! in it spends an analysis pass to find nothing and risks cutting a
//! programme. A film channel wants a better profile than a shopping channel.

use vstd::prelude::*;
use vstd::string::*;
use crate::text::text_of;
use crate::textmap::TextMap;

verus! {

/// How one channel should be treated.
#[derive(Debug, Clone, PartialEq, Eq)]
pub struct ChannelSettings {
    /// Human-readable name, for the settings screen.
    pub name: Option<String>,
    /// Whether to look for commercials at all.
    ///
    /// Off for a channel that carries none: the analysis pass is skipped
    /// rather than run to conclude nothing, and the recording is transcoded
    /// whole. That is both faster and safer than trusting a detector to find
    /// nothing in material that contains nothing.
    pub detect_commercials: bool,
    /// Encoding profile to use instead of the one the job asked for.
    pub profile: Option<String>,
}

impl ChannelSettings {
    /// How a channel nobody configured is treated.
    pub open spec fn unset() -> ChannelSettings {
        ChannelSettings { name: None, detect_commercials: true, profile: None }
    }

    fn duplicate(&self) -> (copy: ChannelSettings)
        ensures
            copy.same_as(*self),
    {
        ChannelSettings {
            name: self.name.clone(),
            detect_commercials: self.detect_commercials,
            profile: self.profile.clone(),
        }
    }

    /// Two settings say the same thing.
    pub open spec fn same_as(self, other: ChannelSettings) -> bool {
        &&& text_of(self.name) == text_of(other.name)
        &&& self.detect_commercials == other.detect_commercials
        &&& text_of(self.profile) == text_of(other.profile)
    }
}

impl Default for ChannelSettings {
    fn default() -> (settings: ChannelSettings)
        ensures
            settings == ChannelSettings::unset(),
    {
        ChannelSettings { name: None, detect_commercials: true, profile: None }
    }
}

/// Per-channel settings, keyed by channel id.
#[derive(Debug, Clone)]
pub struct ChannelStore {
    settings: TextMap<ChannelSettings>,
}

impl View for ChannelStore {
    type V = Map<Seq<char>, ChannelSettings>;

    closed spec fn view(&self) -> Map<Seq<char>, ChannelSettings> {
        self.settings@
    }
}

impl ChannelStore {
    /// The settings are in order.
    pub closed spec fn wf(self) -> bool {
        self.settings.wf()
    }

    /// How many channels have settings.
    pub closed spec fn spec_len(self) -> nat {
        self.settings.spec_len()
    }

    /// A store with nothing in it.
    #[must_use]
    pub fn new() -> (store: ChannelStore)
        ensures
            store.wf(),
            store@ == Map::<Seq<char>, ChannelSettings>::empty(),
            store.spec_len() == 0,
    {
        ChannelStore { settings: TextMap::new() }
    }

    /// Every channel that has settings, keyed by channel id.
    #[must_use]
    pub fn all(&self) -> (settings: &TextMap<ChannelSettings>)
        requires
            self.wf(),
        ensures
            settings@ == self@,
            settings.wf(),
            settings.spec_len() == self.spec_len(),
    {
        &self.settings
    }

    /// The settings for one channel, or the defaults.
    #[must_use]
    pub fn get(&self, channel_id: &str) -> (settings: ChannelSettings)
        requires
            self.wf(),
        ensures
            settings.same_as(
                if self@.contains_key(channel_id@) {
                    self@[channel_id@]
                } else {
                    ChannelSettings::unset()
                },
            ),
    {
        match self.settings.get(channel_id) {
            Some(settings) => settings.duplicate(),
            None => ChannelSettings::default(),
        }
    }

    /// Replace one channel's settings.
    pub fn set(&mut self, channel_id: String, settings: ChannelSettings)
        requires
            old(self).wf(),
        ensures
            final(self).wf(),
            final(self)@ == old(self)@.insert(channel_id@, settings),
            final(self).spec_len() == old(self).spec_len() + if old(self)@.contains_key(
                channel_id@,
            ) {
                0nat
            } else {
                1
            },
    {
        self.settings.insert(channel_id, settings);
    }

    /// Forget one channel's settings, returning whether there were any.
    pub fn remove(&mut self, channel_id: &str) -> (existed: bool)
        requires
            old(self).wf(),
        ensures
            final(self).wf(),
            existed == old(self)@.contains_key(channel_id@),
            final(self)@ == old(self)@.remove(channel_id@),
            final(self).spec_len() + (if existed {
                1nat
            } else {
                0
            }) == old(self).spec_len(),
    {
        self.settings.remove(channel_id).is_some()
    }
}

/// One channel can be changed without disturbing the rest, and what was set is
/// what is read back.
pub proof fn channels_do_not_disturb_each_other(
    before: Map<Seq<char>, ChannelSettings>,
    channel: Seq<char>,
    settings: ChannelSettings,
    other: Seq<char>,
)
    ensures
        before.insert(channel, settings)[channel] == settings,
        other != channel ==> before.insert(channel, settings).contains_key(other)
            == before.contains_key(other),
        other != channel && before.contains_key(other) ==> before.insert(channel, settings)[other]
            == before[other],
        !before.insert(channel, settings).remove(channel).contains_key(channel),
{
}

} // verus!
