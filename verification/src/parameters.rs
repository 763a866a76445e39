//! Typed simulation configuration and its validation. The library records of
//! the source only what the validation rules read: its grid position, its
//! waveform type, and whether its frequency is positive; the host keeps the
//! numeric amplitude and frequency, which only the real-valued waveform
//! synthesis consumes.

use vstd::prelude::*;

verus! {

/// The waveform injected by the source in natural (non-transmitting) mode.
#[derive(Debug, Clone, Copy, PartialEq, Eq, Structural)]
pub enum SignalType {
    ContinuousSine,
    ContinuousSquare,
    PulseSine,
    PulseSquare,
}

/// Where and what the field source is.
#[derive(Debug, Clone, Copy)]
pub struct SourceDefinition {
    pub x: usize,
    pub y: usize,
    /// Whether the host-side source frequency is strictly positive.
    pub frequency_positive: bool,
    pub signal_type: SignalType,
}

/// The modem protocol settings the validation reads; the tone frequencies
/// stay with the host.
#[derive(Debug, Clone, Copy)]
pub struct CommsDefinition {
    pub symbol_duration: usize,
}

/// The simulation configuration provided by the host.
#[derive(Debug, Clone)]
pub struct SimulationParameters {
    pub width: usize,
    pub height: usize,
    pub source: SourceDefinition,
    pub comms: CommsDefinition,
    /// Obstacle outlines in the path notation the rasterizer reads.
    pub obstacles: Vec<String>,
    pub duration_steps: usize,
}

/// The validation rule a configuration broke.
#[derive(Debug, Clone, Copy, PartialEq, Eq, Structural)]
pub enum ParameterError {
    InvalidDimensions,
    SourceOutOfBounds,
    NonPositiveFrequency,
    ZeroSymbolDuration,
    ZeroDurationSteps,
}

/// The message that names a broken validation rule.
pub open spec fn error_text(e: ParameterError) -> Seq<char> {
    match e {
        ParameterError::InvalidDimensions => "Width and height must be greater than 0"@,
        ParameterError::SourceOutOfBounds => "Source position must be within simulation bounds"@,
        ParameterError::NonPositiveFrequency => "Source frequency must be greater than 0"@,
        ParameterError::ZeroSymbolDuration => "Symbol duration must be greater than 0"@,
        ParameterError::ZeroDurationSteps => "Duration steps must be greater than 0"@,
    }
}

impl ParameterError {
    /// The human-readable message for this error.
    pub fn message(&self) -> (r: String)
        ensures
            r@ == error_text(*self),
    {
        match self {
            ParameterError::InvalidDimensions => "Width and height must be greater than 0".to_owned(),
            ParameterError::SourceOutOfBounds => "Source position must be within simulation bounds".to_owned(),
            ParameterError::NonPositiveFrequency => "Source frequency must be greater than 0".to_owned(),
            ParameterError::ZeroSymbolDuration => "Symbol duration must be greater than 0".to_owned(),
            ParameterError::ZeroDurationSteps => "Duration steps must be greater than 0".to_owned(),
        }
    }
}

/// Every validation rule at once.
pub open spec fn params_valid(p: SimulationParameters) -> bool {
    &&& p.width >= 1
    &&& p.height >= 1
    &&& p.source.x < p.width
    &&& p.source.y < p.height
    &&& p.source.frequency_positive
    &&& p.comms.symbol_duration >= 1
    &&& p.duration_steps >= 1
}

/// The verdict of validation: `Ok` on a valid configuration, else the first
/// rule broken, in the order the rules are checked.
pub open spec fn validation_verdict(p: SimulationParameters) -> Result<(), ParameterError> {
    if p.width == 0 || p.height == 0 {
        Err(ParameterError::InvalidDimensions)
    } else if p.source.x >= p.width || p.source.y >= p.height {
        Err(ParameterError::SourceOutOfBounds)
    } else if !p.source.frequency_positive {
        Err(ParameterError::NonPositiveFrequency)
    } else if p.comms.symbol_duration == 0 {
        Err(ParameterError::ZeroSymbolDuration)
    } else if p.duration_steps == 0 {
        Err(ParameterError::ZeroDurationSteps)
    } else {
        Ok(())
    }
}

/// Checks a configuration: the grid must not be empty, the source must lie
/// strictly inside the grid, its frequency must be positive, and the symbol
/// duration and the step budget must not be zero.
pub fn validate_parameters(params: &SimulationParameters) -> (r: Result<(), ParameterError>)
    ensures
        r == validation_verdict(*params),
        r is Ok <==> params_valid(*params),
{
    if params.width == 0 || params.height == 0 {
        return Err(ParameterError::InvalidDimensions);
    }
    if params.source.x >= params.width || params.source.y >= params.height {
        return Err(ParameterError::SourceOutOfBounds);
    }
    if !params.source.frequency_positive {
        return Err(ParameterError::NonPositiveFrequency);
    }
    if params.comms.symbol_duration == 0 {
        return Err(ParameterError::ZeroSymbolDuration);
    }
    if params.duration_steps == 0 {
        return Err(ParameterError::ZeroDurationSteps);
    }
    Ok(())
}

} // verus!
