use vstd::prelude::*;

verus! {

/// Lowest frequency of the audible range, in millihertz.
pub const MIN_FREQ_MHZ: u32 = 20_000;

/// Width of the audible range (20 Hz to 20,000 Hz), in millihertz.
pub const FREQ_RANGE_MHZ: u32 = 19_980_000;

/// Full scale of `FrequencyBand::log_position`: the position of 20,000 Hz.
pub const LOG_POSITION_SCALE: u32 = 1_000_000;

/// One spectral sample of an analysis tick.
///
/// `freq` is the band's frequency in millihertz. `log_position` is where the
/// frequency lies between log2(20 Hz) and log2(20,000 Hz), in millionths of
/// that span (0 at 20 Hz, `LOG_POSITION_SCALE` at 20,000 Hz, saturating at 0
/// below). `volume` is the band's loudness in a fixed-point unit chosen by the
/// producer; binning averages it in that unit.
#[derive(Clone, Copy, Debug, PartialEq, Eq)]
pub struct FrequencyBand {
    pub freq: u32,
    pub log_position: u32,
    pub volume: u32,
}

/// One output slot of a binning: `index` is the slot number, `volume` the
/// mean volume of the bands grouped into it (0 where the slot got none).
#[derive(Clone, Copy, Debug, PartialEq, Eq)]
pub struct FrequencyInterval {
    pub index: u16,
    pub volume: u32,
}

/// The binning strategy.
#[derive(Clone, Copy, Debug, PartialEq, Eq)]
pub enum VisualiserType {
    /// Equal-width frequency slices over 20 Hz to 20,000 Hz.
    Linear1,
    /// Equal-size groups of consecutive bands.
    Linear2,
    /// Equal-width slices of the logarithm of the frequency.
    Log,
}

/// The visualiser's live configuration.
#[derive(Clone, Copy, Debug, PartialEq, Eq)]
pub struct VisualiserSettings {
    /// Bar colour as red, green, blue, alpha.
    pub barsColour: (u8, u8, u8, u8),
    pub visualiserType: VisualiserType,
    pub useDesktopBackground: bool,
    pub resolution: u16,
}

impl Default for VisualiserSettings {
    fn default() -> (r: Self)
        ensures
            r.barsColour == (0u8, 0u8, 0u8, 170u8),
            r.visualiserType == VisualiserType::Linear1,
            r.useDesktopBackground,
            r.resolution == 128,
    {
        VisualiserSettings {
            barsColour: (0, 0, 0, 170),
            visualiserType: VisualiserType::Linear1,
            useDesktopBackground: true,
            resolution: 128,
        }
    }
}

} // verus!
