//! The vocabulary of a music-choosing assistant: its personalities and the
//! log of activity changes.

use vstd::prelude::*;

verus! {

/// How the assistant chooses music.
#[derive(Debug, Clone, Copy)]
pub enum DjPersonality {
    /// Chooses for productivity.
    FlowOptimizer,
    /// Chooses for emotional support.
    MoodLifter,
    /// Chooses what is new.
    Explorer,
    /// Chooses what is familiar.
    Comfort,
    /// Chooses for one listener's taste.
    HueMode,
}

/// The description of a personality.
pub open spec fn personality_text(p: DjPersonality) -> Seq<char> {
    match p {
        DjPersonality::FlowOptimizer => "🎯 Flow Optimizer - Maximum productivity beats"@,
        DjPersonality::MoodLifter => "🌈 Mood Lifter - Emotional support through sound"@,
        DjPersonality::Explorer => "🚀 Explorer - Pushing sonic boundaries"@,
        DjPersonality::Comfort => "🛋️ Comfort Zone - Safe, familiar vibes"@,
        DjPersonality::HueMode => "🎵 Hue Mode - Personalized for the dancing monkey! 🐒"@,
    }
}

impl DjPersonality {
    /// The description of the personality.
    pub fn description(&self) -> (text: &'static str)
        ensures
            text@ == personality_text(*self),
    {
        match self {
            DjPersonality::FlowOptimizer => "🎯 Flow Optimizer - Maximum productivity beats",
            DjPersonality::MoodLifter => "🌈 Mood Lifter - Emotional support through sound",
            DjPersonality::Explorer => "🚀 Explorer - Pushing sonic boundaries",
            DjPersonality::Comfort => "🛋️ Comfort Zone - Safe, familiar vibes",
            DjPersonality::HueMode => "🎵 Hue Mode - Personalized for the dancing monkey! 🐒",
        }
    }
}

/// One change of activity.
#[derive(Debug, Clone)]
pub struct ActivityTransition {
    /// Seconds since the Unix epoch.
    pub timestamp: u64,
    /// The activity left.
    pub from: String,
    /// The activity taken up.
    pub to: String,
    /// What caused the change.
    pub trigger: String,
}

} // verus!
