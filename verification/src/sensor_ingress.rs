//! The vocabulary of sensors and of the rules that fuse their readings.

use vstd::prelude::*;

verus! {

/// Which way an audio stream flows.
#[derive(Debug, Clone, Copy)]
pub enum AudioDirection {
    Input,
    Output,
    Bidir,
}

/// Kinds of environmental field.
#[derive(Debug, Clone, Copy)]
pub enum FieldType {
    Gravity,
    Electromagnetic,
    Temperature,
    Pressure,
    Humidity,
}

/// Where an emotion reading comes from.
#[derive(Debug, Clone, Copy)]
pub enum EmotionSource {
    FacialRecognition,
    VoiceTone,
    BodyLanguage,
    TextSentiment,
    BiometricFusion,
}

/// Kinds of sensor.
#[derive(Debug, Clone, Copy)]
pub enum SensorType {
    Switch,
    Photoresistor,
    Microphone,
    Speaker,
    RadarBreathing,
    Accelerometer,
    Magnetometer,
    Camera3D,
    EmotionDetector,
    ESP32,
}

/// Ways of fusing several readings into one.
#[derive(Debug, Clone, Copy)]
pub enum FusionType {
    Average,
    WeightedAverage,
    Kalman,
    ML,
    WaveInterference,
}

/// A rule that derives one sensor from others.
#[derive(Debug, Clone)]
pub struct FusionRule {
    /// Name of the rule.
    pub name: String,
    /// Identifiers of the sensors read.
    pub inputs: Vec<String>,
    /// Identifier of the derived sensor.
    pub output: String,
    /// How the readings are fused.
    pub fusion_type: FusionType,
}

/// A few lines on sensors.
pub const SENSOR_WISDOM: &'static str =
    "🌊 Everything is a wave, everything is a sensor:\n\n• A switch is a square wave of possibility\n• Breathing is the sine wave of life\n• Light intensity tells the story of the day\n• Motion ripples through space like waves in water\n• Emotions are complex interference patterns\n• ESP32s are the neurons of your smart environment\n• 3D cameras see the wave field of reality\n• All sensors together create consciousness\n\nFrom photoresistors to radar breathing - it's all waves!\nThe environment remembers through MEM8! 🌊📡";

/// The text `SENSOR_WISDOM`.
pub fn sensor_wisdom() -> (text: &'static str)
    ensures
        text@ == SENSOR_WISDOM@,
{
    SENSOR_WISDOM
}

} // verus!
