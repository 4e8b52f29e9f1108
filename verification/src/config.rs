//! The parameters of a run and the faults that keep one from running.

use crate::fitness::Weights;
use vstd::prelude::*;

verus! {

/// The parameters of one run. Lengths and step sizes are fixed-point
/// numbers: 1.0 is `UNIT`.
#[derive(Clone, Copy, Debug, PartialEq, Eq)]
pub struct Config {
    /// Number of mesh routers to place.
    pub router_count: usize,
    /// Number of mesh clients to cover.
    pub client_count: usize,
    /// Number of coordinates of a position.
    pub dimensions: usize,
    /// Number of rounds of the search.
    pub iterations: usize,
    /// Size of the random step.
    pub alpha: u32,
    /// Attractiveness at distance zero.
    pub beta0: u32,
    /// Light absorption: how fast attractiveness falls with distance.
    pub gamma: u32,
    /// Smallest value of a coordinate.
    pub lower_bound: i32,
    /// Largest value of a coordinate.
    pub upper_bound: i32,
    /// Largest distance over which two nodes communicate.
    pub max_comm_distance: u32,
    /// Weight of the size of the giant component in the fitness.
    pub weight_sgc: u32,
    /// Weight of the number of covered clients in the fitness.
    pub weight_ncmc: u32,
    /// Weight of the covered clients per router in the fitness.
    pub weight_ncmcpr: u32,
}

/// Why a configuration cannot be run.
#[derive(Clone, Copy, Debug, PartialEq, Eq)]
pub enum ConfigError {
    /// There is no router to place.
    NoRouters,
    /// The lower bound is not below the upper bound.
    InvalidBounds,
    /// The random numbers of one round would not fit in memory.
    TooLarge,
}

impl Config {
    /// The number of coordinates drawn to place clients and routers.
    pub open spec fn placement_draws(self) -> int {
        (self.client_count + self.router_count) * self.dimensions
    }

    /// The number of random steps drawn in one round: one for each
    /// coordinate of each ordered pair of distinct routers.
    pub open spec fn round_draws(self) -> int {
        self.router_count * (self.router_count - 1) * self.dimensions
    }

    /// What is wrong with this configuration, if anything; the first of
    /// the faults in the order of `ConfigError`.
    pub open spec fn problem(self) -> Option<ConfigError> {
        if self.router_count == 0 {
            Some(ConfigError::NoRouters)
        } else if self.lower_bound >= self.upper_bound {
            Some(ConfigError::InvalidBounds)
        } else if self.placement_draws() > usize::MAX || self.round_draws() > usize::MAX {
            Some(ConfigError::TooLarge)
        } else {
            None
        }
    }

    /// This configuration can be run.
    pub open spec fn valid(self) -> bool {
        self.problem().is_none()
    }

    /// The weights of the three metrics.
    pub open spec fn weights_spec(&self) -> Weights {
        Weights { sgc: self.weight_sgc, ncmc: self.weight_ncmc, ncmcpr: self.weight_ncmcpr }
    }

    /// The weights of the three metrics.
    #[verifier::when_used_as_spec(weights_spec)]
    pub fn weights(&self) -> (w: Weights)
        ensures
            w == self.weights_spec(),
    {
        Weights { sgc: self.weight_sgc, ncmc: self.weight_ncmc, ncmcpr: self.weight_ncmcpr }
    }

    /// Tells whether this configuration can be run, and if not, why.
    pub fn check(&self) -> (r: Result<(), ConfigError>)
        ensures
            r == match self.problem() {
                Some(fault) => Err::<(), ConfigError>(fault),
                None => Ok::<(), ConfigError>(()),
            },
    {
        match self.sizes() {
            Err(fault) => Err(fault),
            Ok(_) => Ok(()),
        }
    }

    /// The number of coordinates drawn to place the nodes and the number of
    /// random steps drawn in one round, or why this configuration cannot be
    /// run.
    pub fn sizes(&self) -> (r: Result<(usize, usize), ConfigError>)
        ensures
            match self.problem() {
                Some(fault) => r == Err::<(usize, usize), ConfigError>(fault),
                None => r == Ok::<(usize, usize), ConfigError>(
                    (self.placement_draws() as usize, self.round_draws() as usize),
                ),
            },
    {
        if self.router_count == 0 {
            return Err(ConfigError::NoRouters);
        }
        if self.lower_bound >= self.upper_bound {
            return Err(ConfigError::InvalidBounds);
        }
        match self.placement_size() {
            None => Err(ConfigError::TooLarge),
            Some(placement) => match self.round_size() {
                None => Err(ConfigError::TooLarge),
                Some(round) => Ok((placement, round)),
            },
        }
    }

    /// The number of coordinates drawn to place clients and routers, where
    /// it fits in `usize`.
    pub fn placement_size(&self) -> (n: Option<usize>)
        ensures
            n == if self.placement_draws() > usize::MAX {
                None
            } else {
                Some(self.placement_draws() as usize)
            },
    {
        let d = self.dimensions;
        match self.client_count.checked_add(self.router_count) {
            Some(nodes) => nodes.checked_mul(d),
            None => {
                if d == 0 {
                    assert(self.placement_draws() == 0) by (nonlinear_arith)
                        requires
                            self.placement_draws() == (self.client_count + self.router_count)
                                * d,
                            d == 0,
                    ;
                    Some(0)
                } else {
                    assert(self.placement_draws() > usize::MAX) by (nonlinear_arith)
                        requires
                            self.placement_draws() == (self.client_count + self.router_count)
                                * d,
                            d >= 1,
                            self.client_count + self.router_count > usize::MAX,
                    ;
                    None
                }
            },
        }
    }

    /// The number of random steps drawn in one round, where it fits in
    /// `usize`.
    pub fn round_size(&self) -> (n: Option<usize>)
        ensures
            n == if self.round_draws() > usize::MAX {
                None
            } else {
                Some(self.round_draws() as usize)
            },
    {
        let r = self.router_count;
        let d = self.dimensions;
        if r == 0 {
            assert(r * (r - 1) * d == 0) by (nonlinear_arith)
                requires
                    r == 0,
            ;
            return Some(0);
        }
        match (r - 1).checked_mul(d) {
            Some(row) => {
                assert(r * (r - 1) * d == r * ((r - 1) * d)) by (nonlinear_arith);
                r.checked_mul(row)
            },
            None => {
                assert(r * (r - 1) * d >= (r - 1) * d) by (nonlinear_arith)
                    requires
                        (r - 1) * d > 0,
                        r >= 1,
                        d >= 0,
                ;
                None
            },
        }
    }
}

impl Default for Config {
    /// The default configuration: 16 routers and 32 clients in a square
    /// of side 32, a range of 4.5, 100 rounds, alpha 0.5, beta0 and gamma 1,
    /// and weights 0.8, 0.1 and 0.1.
    fn default() -> (c: Config)
        ensures
            c.valid(),
            c == (Config {
                router_count: 16,
                client_count: 32,
                dimensions: 2,
                iterations: 100,
                alpha: 500_000,
                beta0: 1_000_000,
                gamma: 1_000_000,
                lower_bound: 0,
                upper_bound: 32_000_000,
                max_comm_distance: 4_500_000,
                weight_sgc: 800_000,
                weight_ncmc: 100_000,
                weight_ncmcpr: 100_000,
            }),
    {
        Config {
            router_count: 16,
            client_count: 32,
            dimensions: 2,
            iterations: 100,
            alpha: 500_000,
            beta0: 1_000_000,
            gamma: 1_000_000,
            lower_bound: 0,
            upper_bound: 32_000_000,
            max_comm_distance: 4_500_000,
            weight_sgc: 800_000,
            weight_ncmc: 100_000,
            weight_ncmcpr: 100_000,
        }
    }
}

} // verus!
