use vstd::prelude::*;

verus! {

/// Order word of the IEEE-754 double -10.0 under the sign-flip total-order
/// encoding (the encoding the examples and defaults assume; the engine
/// itself only compares words).
pub const DEFAULT_RANGE_LO: u64 = 0x3FDB_FFFF_FFFF_FFFF;

/// Order word of the IEEE-754 double 10.0 under the same encoding.
pub const DEFAULT_RANGE_HI: u64 = 0xC024_0000_0000_0000;

/// Why a configuration was rejected at construction time.
#[derive(Clone, Copy, PartialEq, Eq, Structural, Debug)]
pub enum ConfigError {
    /// The population size was zero.
    ZeroIndividuals,
    /// The genome length was zero.
    ZeroGenes,
    /// The gene range was empty (lower word above upper word).
    EmptyRange,
    /// The mutation rate was not a probability (zero denominator, or a
    /// numerator above the denominator).
    InvalidMutationRate,
}

/// Immutable per-run parameters: population size, genome length, the word
/// range continuous genes are sampled from, and the mutation rate as the
/// exact probability `mutation_num / mutation_den`.
#[derive(Clone, Copy, Debug)]
pub struct Config {
    pub num_individuals: usize,
    pub num_genes: usize,
    pub range_lo: u64,
    pub range_hi: u64,
    pub mutation_num: u64,
    pub mutation_den: u64,
}

impl Config {
    /// A configuration the engine can run on: nonzero dimensions, a
    /// nonempty gene range, and a mutation rate in `[0, 1]`.
    pub open spec fn wf(self) -> bool {
        &&& self.num_individuals >= 1
        &&& self.num_genes >= 1
        &&& self.range_lo <= self.range_hi
        &&& self.mutation_den >= 1
        &&& self.mutation_num <= self.mutation_den
    }

    /// Checked construction: every contract violation the surrounding
    /// system could otherwise smuggle in is rejected here, so that a
    /// `Config` in hand is always well formed.
    pub fn new(
        num_individuals: usize,
        num_genes: usize,
        range_lo: u64,
        range_hi: u64,
        mutation_num: u64,
        mutation_den: u64,
    ) -> (result: Result<Config, ConfigError>)
        ensures
            match result {
                Ok(config) => {
                    &&& config.wf()
                    &&& config.num_individuals == num_individuals
                    &&& config.num_genes == num_genes
                    &&& config.range_lo == range_lo
                    &&& config.range_hi == range_hi
                    &&& config.mutation_num == mutation_num
                    &&& config.mutation_den == mutation_den
                },
                Err(error) => match error {
                    ConfigError::ZeroIndividuals => num_individuals == 0,
                    ConfigError::ZeroGenes => num_individuals >= 1 && num_genes == 0,
                    ConfigError::EmptyRange => {
                        &&& num_individuals >= 1
                        &&& num_genes >= 1
                        &&& range_lo > range_hi
                    },
                    ConfigError::InvalidMutationRate => {
                        &&& num_individuals >= 1
                        &&& num_genes >= 1
                        &&& range_lo <= range_hi
                        &&& (mutation_den == 0 || mutation_num > mutation_den)
                    },
                },
            },
            result is Ok <==> {
                &&& num_individuals >= 1
                &&& num_genes >= 1
                &&& range_lo <= range_hi
                &&& mutation_den >= 1
                &&& mutation_num <= mutation_den
            },
    {
        if num_individuals == 0 {
            return Err(ConfigError::ZeroIndividuals);
        }
        if num_genes == 0 {
            return Err(ConfigError::ZeroGenes);
        }
        if range_lo > range_hi {
            return Err(ConfigError::EmptyRange);
        }
        if mutation_den == 0 || mutation_num > mutation_den {
            return Err(ConfigError::InvalidMutationRate);
        }
        Ok(Config {
            num_individuals,
            num_genes,
            range_lo,
            range_hi,
            mutation_num,
            mutation_den,
        })
    }
}

impl Default for Config {
    /// Ten individuals of ten genes, the word range standing for
    /// `[-10.0, 10.0]`, and a mutation rate of one in ten.
    fn default() -> (config: Config)
        ensures
            config.wf(),
            config.num_individuals == 10,
            config.num_genes == 10,
            config.range_lo == DEFAULT_RANGE_LO,
            config.range_hi == DEFAULT_RANGE_HI,
            config.mutation_num == 1,
            config.mutation_den == 10,
    {
        Config {
            num_individuals: 10,
            num_genes: 10,
            range_lo: DEFAULT_RANGE_LO,
            range_hi: DEFAULT_RANGE_HI,
            mutation_num: 1,
            mutation_den: 10,
        }
    }
}

} // verus!
