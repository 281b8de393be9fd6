//! The vocabulary of music preferences.

use vstd::prelude::*;

verus! {

/// Musical genres.
#[derive(Debug, Clone, Copy, PartialEq, Eq, Hash)]
pub enum Genre {
    Electronic,
    HardRock,
    Ambient,
    Industrial,
    Crossover,
    Classical,
    Spatial,
    Rap,
    HipHop,
    Polka,
    Jazz,
    WorldMusic,
}

/// Activities that music is chosen for.
#[derive(Debug, Clone, Copy, PartialEq, Eq, Hash)]
pub enum Activity {
    Programming,
    Decompressing,
    DeepThinking,
    Creating,
    Relaxing,
    Exercising,
    Commuting,
    Sleeping,
}

/// How much an artist is liked.
#[derive(Debug, Clone, Copy)]
pub enum AffinityLevel {
    Essential,
    Love,
    Appreciate,
    Contextual,
    Avoid,
    Never,
}

/// Tempo ranges in beats per minute, each as lowest and highest.
#[derive(Debug, Clone, Copy)]
pub struct TempoPreference {
    /// Range that helps focus.
    pub focus_bpm: (u32, u32),
    /// Tempo above which listening tires.
    pub fatigue_threshold: u32,
    /// Range for letting off tension.
    pub decompression_bpm: (u32, u32),
    /// Range for rest.
    pub relaxation_bpm: (u32, u32),
}

/// A few lines on music and mood.
pub const MUSIC_WISDOM: &'static str =
    "🎵 Music Wisdom from the Waves:\n\n• High BPM ≠ High Productivity (fatigue is real!)\n• Electronic music creates flow states by occupying the verbal mind\n• Hard rock is emotional garbage collection - releases memory pressure\n• Ambient expands temporal perception - 5 minutes feels like 20\n• NIN shaped early neural pathways (Trent knows the dark waves)\n• Polka and programming don't mix (except in Nebraska)\n• Laura Van Dam improves... visual debugging 😏\n• Beethoven's 5th is literally mind-bending - changes thought patterns\n• The speed of thought follows the tempo of input\n\nRemember: Your playlist is your productivity algorithm!";

/// The text `MUSIC_WISDOM`.
pub fn music_wisdom() -> (text: &'static str)
    ensures
        text@ == MUSIC_WISDOM@,
{
    MUSIC_WISDOM
}

} // verus!
