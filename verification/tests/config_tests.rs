use genalg::config::{Config, ConfigError, DEFAULT_RANGE_HI, DEFAULT_RANGE_LO};

/// The sign-flip total-order encoding of an IEEE-754 double: unsigned
/// order of the words mirrors numeric order of the finite doubles.
fn encode(x: f64) -> u64 {
    let bits = x.to_bits();
    if bits >> 63 == 1 {
        !bits
    } else {
        bits | 0x8000_0000_0000_0000
    }
}

#[test]
fn default_config_matches_documented_values() {
    let config = Config::default();
    assert_eq!(config.num_individuals, 10);
    assert_eq!(config.num_genes, 10);
    assert_eq!(config.range_lo, DEFAULT_RANGE_LO);
    assert_eq!(config.range_hi, DEFAULT_RANGE_HI);
    assert_eq!(config.mutation_num, 1);
    assert_eq!(config.mutation_den, 10);
}

#[test]
fn default_range_words_encode_plus_minus_ten() {
    assert_eq!(DEFAULT_RANGE_LO, encode(-10.0));
    assert_eq!(DEFAULT_RANGE_HI, encode(10.0));
    assert!(DEFAULT_RANGE_LO < DEFAULT_RANGE_HI);
}

#[test]
fn encoding_preserves_order() {
    let samples = [-10.0, -1.5, -0.0, 0.0, 0.25, 1.0, 9.75, 10.0];
    for pair in samples.windows(2) {
        assert!(encode(pair[0]) <= encode(pair[1]));
    }
    assert!(encode(-10.0) < encode(-9.99));
    assert!(encode(-0.5) < encode(0.5));
}

#[test]
fn config_new_accepts_valid_parameters() {
    let config = Config::new(4, 3, encode(-1.0), encode(1.0), 1, 10).unwrap();
    assert_eq!(config.num_individuals, 4);
    assert_eq!(config.num_genes, 3);
    assert_eq!(config.mutation_num, 1);
    assert_eq!(config.mutation_den, 10);
}

#[test]
fn config_new_rejects_zero_individuals() {
    let result = Config::new(0, 3, 0, 1, 1, 10);
    assert_eq!(result.unwrap_err(), ConfigError::ZeroIndividuals);
}

#[test]
fn config_new_rejects_zero_genes() {
    let result = Config::new(4, 0, 0, 1, 1, 10);
    assert_eq!(result.unwrap_err(), ConfigError::ZeroGenes);
}

#[test]
fn config_new_rejects_empty_range() {
    let result = Config::new(4, 3, 5, 4, 1, 10);
    assert_eq!(result.unwrap_err(), ConfigError::EmptyRange);
}

#[test]
fn config_new_rejects_bad_mutation_rate() {
    let zero_den = Config::new(4, 3, 0, 1, 1, 0);
    assert_eq!(zero_den.unwrap_err(), ConfigError::InvalidMutationRate);
    let above_one = Config::new(4, 3, 0, 1, 11, 10);
    assert_eq!(above_one.unwrap_err(), ConfigError::InvalidMutationRate);
}
