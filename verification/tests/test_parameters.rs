use fdtd_modem::parameters::{
    validate_parameters, CommsDefinition, ParameterError, SignalType, SimulationParameters,
    SourceDefinition,
};

fn params(
    width: usize,
    height: usize,
    source_x: usize,
    source_y: usize,
    frequency_positive: bool,
    symbol_duration: usize,
    duration_steps: usize,
) -> SimulationParameters {
    SimulationParameters {
        width,
        height,
        source: SourceDefinition {
            x: source_x,
            y: source_y,
            frequency_positive,
            signal_type: SignalType::ContinuousSine,
        },
        comms: CommsDefinition { symbol_duration },
        obstacles: vec![],
        duration_steps,
    }
}

#[test]
fn test_validate_parameters_valid() {
    let p = params(100, 100, 50, 50, true, 200, 100);
    assert!(validate_parameters(&p).is_ok());
}

#[test]
fn test_validate_parameters_invalid_dimensions() {
    let p = params(0, 100, 0, 0, true, 200, 100);
    assert!(validate_parameters(&p).is_err());
}

#[test]
fn test_validate_parameters_source_out_of_bounds() {
    let p = params(50, 50, 100, 100, true, 200, 100);
    assert!(validate_parameters(&p).is_err());
}

#[test]
fn test_validate_parameters_source_on_boundary() {
    // x = width is invalid: valid columns are 0..=width-1.
    let p = params(100, 100, 100, 50, true, 200, 100);
    assert!(validate_parameters(&p).is_err());
}

#[test]
fn test_validate_parameters_negative_frequency() {
    let p = params(100, 100, 50, 50, false, 200, 100);
    assert!(validate_parameters(&p).is_err());
}

#[test]
fn test_validate_parameters_zero_duration() {
    let p = params(100, 100, 50, 50, true, 200, 0);
    assert!(validate_parameters(&p).is_err());
}

#[test]
fn test_validate_parameters_error_variants() {
    assert_eq!(
        validate_parameters(&params(100, 0, 0, 0, true, 200, 100)),
        Err(ParameterError::InvalidDimensions)
    );
    assert_eq!(
        validate_parameters(&params(50, 50, 10, 50, true, 200, 100)),
        Err(ParameterError::SourceOutOfBounds)
    );
    assert_eq!(
        validate_parameters(&params(50, 50, 10, 10, false, 200, 100)),
        Err(ParameterError::NonPositiveFrequency)
    );
    assert_eq!(
        validate_parameters(&params(50, 50, 10, 10, true, 0, 100)),
        Err(ParameterError::ZeroSymbolDuration)
    );
    assert_eq!(
        validate_parameters(&params(50, 50, 10, 10, true, 200, 0)),
        Err(ParameterError::ZeroDurationSteps)
    );
}

#[test]
fn test_validate_parameters_error_messages() {
    assert_eq!(
        ParameterError::InvalidDimensions.message(),
        "Width and height must be greater than 0"
    );
    assert_eq!(
        ParameterError::SourceOutOfBounds.message(),
        "Source position must be within simulation bounds"
    );
    assert_eq!(
        ParameterError::NonPositiveFrequency.message(),
        "Source frequency must be greater than 0"
    );
    assert_eq!(
        ParameterError::ZeroSymbolDuration.message(),
        "Symbol duration must be greater than 0"
    );
    assert_eq!(
        ParameterError::ZeroDurationSteps.message(),
        "Duration steps must be greater than 0"
    );
}

#[test]
fn test_validate_parameters_smallest_grid() {
    // A one-by-one grid with the source at its only cell is valid.
    let p = params(1, 1, 0, 0, true, 1, 1);
    assert!(validate_parameters(&p).is_ok());
}
