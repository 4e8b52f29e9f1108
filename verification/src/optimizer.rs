//! The search: the population of routers, the best placement seen, and the
//! run from a seed to a report.

use crate::config::{Config, ConfigError};
use crate::firefly::{
    decay_of, is_decay, lemma_sweep_within_bounds, placement_ok, sweep, sweep_routers,
    within_bounds,
};
use crate::connectivity::giant_component_size;
use crate::coverage::{coverage_per_router, covered_count};
use crate::fitness::{fitness, measure, score};
use crate::geometry::{positions, Point};
use crate::random::{seeded_uniform, uniform_stream};
use crate::units::UNIT;
use vstd::prelude::*;

verus! {

/// What a search holds: the placement of the clients, the routers as they
/// stand, and the best placement of the routers seen so far with its
/// fitness.
pub struct SearchState {
    pub config: Config,
    pub clients: Seq<Seq<i32>>,
    pub routers: Seq<Seq<i32>>,
    pub best_routers: Seq<Seq<i32>>,
    pub best_fitness: nat,
}

/// What a search hands over when it ends: the best placement of the routers
/// with its fitness and its three metrics, and the clients it was found for.
pub struct ReportView {
    pub mesh_routers: Seq<Seq<i32>>,
    pub mesh_clients: Seq<Seq<i32>>,
    pub best_fitness: nat,
    pub sgc: nat,
    pub ncmc: nat,
    pub ncmcpr: nat,
}

/// The fitness of `routers` for `clients` under `config`.
pub open spec fn score_of(config: Config, routers: Seq<Seq<i32>>, clients: Seq<Seq<i32>>) -> nat {
    fitness(routers, clients, config.max_comm_distance, config.weights_spec())
}

/// The `count` points whose coordinates follow one another in `draws`, from
/// point number `first` on.
pub open spec fn placed(draws: Seq<i32>, dimensions: int, first: int, count: int) -> Seq<
    Seq<i32>,
> {
    Seq::new(
        count as nat,
        |i: int| Seq::new(dimensions as nat, |d: int| draws[(first + i) * dimensions + d]),
    )
}

/// The state in which a search begins: `draws` holds the coordinates of the
/// clients, then those of the routers; the best placement is the first.
pub open spec fn started(config: Config, draws: Seq<i32>) -> SearchState {
    let clients = placed(draws, config.dimensions as int, 0, config.client_count as int);
    let routers = placed(
        draws,
        config.dimensions as int,
        config.client_count as int,
        config.router_count as int,
    );
    SearchState {
        config,
        clients,
        routers,
        best_routers: routers,
        best_fitness: score_of(config, routers, clients),
    }
}

/// The state after one more round: the routers have been swept, and they
/// replace the best placement where their fitness is strictly higher.
pub open spec fn advanced(
    state: SearchState,
    decay: spec_fn(u128) -> u32,
    noise: Seq<i32>,
) -> SearchState {
    let routers = sweep(state.config, decay, state.routers, noise);
    let score = score_of(state.config, routers, state.clients);
    if score > state.best_fitness {
        SearchState { routers, best_routers: routers, best_fitness: score, ..state }
    } else {
        SearchState { routers, ..state }
    }
}

/// A state that a search can be in: the configuration can be run, all
/// points lie within the bounds, and the best fitness is that of the best
/// placement and no lower than that of the routers as they stand.
pub open spec fn consistent(state: SearchState) -> bool {
    &&& state.config.valid()
    &&& placement_ok(state.config, state.clients, state.config.client_count as int)
    &&& placement_ok(state.config, state.routers, state.config.router_count as int)
    &&& placement_ok(state.config, state.best_routers, state.config.router_count as int)
    &&& state.best_fitness == score_of(state.config, state.best_routers, state.clients)
    &&& state.best_fitness >= score_of(state.config, state.routers, state.clients)
}

/// What a search that ends in `state` hands over.
pub open spec fn report_of(state: SearchState) -> ReportView {
    ReportView {
        mesh_routers: state.best_routers,
        mesh_clients: state.clients,
        best_fitness: state.best_fitness,
        sgc: giant_component_size(state.best_routers, state.config.max_comm_distance),
        ncmc: covered_count(state.best_routers, state.clients, state.config.max_comm_distance),
        ncmcpr: coverage_per_router(
            state.best_routers,
            state.clients,
            state.config.max_comm_distance,
        ),
    }
}

/// The seed of round `round` of a run seeded with `seed`: their sum, which
/// wraps around. Round 0 is the placement.
pub open spec fn round_seed(seed: u64, round: nat) -> u64 {
    ((seed + round) % 0x1_0000_0000_0000_0000) as u64
}

/// The coordinates that a run seeded with `seed` draws to place its nodes.
pub open spec fn placement_stream(config: Config, seed: u64) -> Seq<i32> {
    uniform_stream(
        seed,
        config.lower_bound,
        config.upper_bound,
        config.placement_draws() as usize,
    )
}

/// The random steps that a run seeded with `seed` draws for round `round`.
pub open spec fn noise_stream(config: Config, seed: u64, round: nat) -> Seq<i32> {
    uniform_stream(round_seed(seed, round), 0, 999_999, config.round_draws() as usize)
}

/// The state of a run seeded with `seed` after `rounds` rounds.
pub open spec fn state_after(
    config: Config,
    decay: spec_fn(u128) -> u32,
    seed: u64,
    rounds: nat,
) -> SearchState
    decreases rounds,
{
    if rounds == 0 {
        started(config, placement_stream(config, seed))
    } else {
        advanced(
            state_after(config, decay, seed, (rounds - 1) as nat),
            decay,
            noise_stream(config, seed, rounds),
        )
    }
}

/// What a run of `config` seeded with `seed` hands over.
pub open spec fn outcome(config: Config, decay: spec_fn(u128) -> u32, seed: u64) -> ReportView {
    report_of(state_after(config, decay, seed, config.iterations as nat))
}

/// Points read from coordinates within the bounds lie within the bounds.
pub proof fn lemma_placed_within_bounds(config: Config, draws: Seq<i32>, first: int, count: int)
    requires
        0 <= first,
        0 <= count,
        (first + count) * config.dimensions <= draws.len(),
        forall|k: int|
            0 <= k < draws.len() ==> config.lower_bound <= #[trigger] draws[k]
                <= config.upper_bound,
    ensures
        placement_ok(config, placed(draws, config.dimensions as int, first, count), count),
{
    let d = config.dimensions as int;
    let points = placed(draws, d, first, count);
    assert forall|i: int| 0 <= i < points.len() implies within_bounds(
        config,
        #[trigger] points[i],
    ) by {
        let point = points[i];
        assert forall|k: int| 0 <= k < point.len() implies config.lower_bound
            <= #[trigger] point[k] <= config.upper_bound by {
            assert(0 <= (first + i) * d + k < (first + count) * d) by (nonlinear_arith)
                requires
                    0 <= first,
                    0 <= i < count,
                    0 <= k < d,
            ;
            assert(point[k] == draws[(first + i) * d + k]);
        }
    }
}

/// A round never lowers the best fitness, and leaves it no lower than the
/// fitness of the routers as they then stand. On a tie the earlier best
/// placement stays.
pub proof fn lemma_round_keeps_best(
    state: SearchState,
    decay: spec_fn(u128) -> u32,
    noise: Seq<i32>,
)
    ensures
        advanced(state, decay, noise).best_fitness >= state.best_fitness,
        advanced(state, decay, noise).best_fitness >= score_of(
            state.config,
            advanced(state, decay, noise).routers,
            state.clients,
        ),
        advanced(state, decay, noise).best_fitness == state.best_fitness ==> advanced(
            state,
            decay,
            noise,
        ).best_routers == state.best_routers,
{
}

/// A round keeps a consistent state consistent: in particular, every
/// coordinate of every router stays within the bounds.
pub proof fn lemma_round_keeps_consistent(
    state: SearchState,
    decay: spec_fn(u128) -> u32,
    noise: Seq<i32>,
)
    requires
        consistent(state),
    ensures
        consistent(advanced(state, decay, noise)),
{
    lemma_sweep_within_bounds(state.config, decay, state.routers, noise);
}

/// Rounds change neither the configuration nor the clients.
pub proof fn lemma_run_keeps_clients(
    config: Config,
    decay: spec_fn(u128) -> u32,
    seed: u64,
    rounds: nat,
)
    ensures
        state_after(config, decay, seed, rounds).config == config,
        state_after(config, decay, seed, rounds).clients == state_after(
            config,
            decay,
            seed,
            0,
        ).clients,
    decreases rounds,
{
    if rounds > 0 {
        lemma_run_keeps_clients(config, decay, seed, (rounds - 1) as nat);
    }
}

/// The best fitness of a run never decreases from one round to a later one,
/// and is never below the fitness that the routers had after any earlier
/// round.
pub proof fn lemma_best_fitness_monotonic(
    config: Config,
    decay: spec_fn(u128) -> u32,
    seed: u64,
    earlier: nat,
    later: nat,
)
    requires
        earlier <= later,
    ensures
        state_after(config, decay, seed, earlier).best_fitness <= state_after(
            config,
            decay,
            seed,
            later,
        ).best_fitness,
        score_of(
            config,
            state_after(config, decay, seed, earlier).routers,
            state_after(config, decay, seed, earlier).clients,
        ) <= state_after(config, decay, seed, later).best_fitness,
    decreases later,
{
    lemma_run_keeps_clients(config, decay, seed, earlier);
    if earlier < later {
        let previous = state_after(config, decay, seed, (later - 1) as nat);
        lemma_best_fitness_monotonic(config, decay, seed, earlier, (later - 1) as nat);
        lemma_round_keeps_best(previous, decay, noise_stream(config, seed, later));
    } else if earlier > 0 {
        let previous = state_after(config, decay, seed, (earlier - 1) as nat);
        lemma_run_keeps_clients(config, decay, seed, (earlier - 1) as nat);
        lemma_round_keeps_best(previous, decay, noise_stream(config, seed, earlier));
    }
}

/// A run whose first placement lies within the bounds keeps every
/// coordinate of every router within them after every round.
pub proof fn lemma_run_within_bounds(
    config: Config,
    decay: spec_fn(u128) -> u32,
    seed: u64,
    rounds: nat,
)
    requires
        consistent(state_after(config, decay, seed, 0)),
    ensures
        consistent(state_after(config, decay, seed, rounds)),
        placement_ok(
            config,
            state_after(config, decay, seed, rounds).routers,
            config.router_count as int,
        ),
    decreases rounds,
{
    lemma_run_keeps_clients(config, decay, seed, rounds);
    if rounds > 0 {
        lemma_run_within_bounds(config, decay, seed, (rounds - 1) as nat);
        lemma_round_keeps_consistent(
            state_after(config, decay, seed, (rounds - 1) as nat),
            decay,
            noise_stream(config, seed, rounds),
        );
    }
}

/// A run is a function of its configuration, its decay and its seed: two
/// runs that agree on these hand over the same report.
pub proof fn lemma_run_deterministic(
    first: Config,
    second: Config,
    decay: spec_fn(u128) -> u32,
    first_seed: u64,
    second_seed: u64,
)
    requires
        first == second,
        first_seed == second_seed,
    ensures
        outcome(first, decay, first_seed) == outcome(second, decay, second_seed),
{
}

/// What a search hands over when it ends: the best placement of the routers
/// with its fitness and its three metrics, and the clients it was found for.
#[derive(Debug, PartialEq, Eq)]
pub struct Report {
    /// The best placement of the routers.
    pub mesh_routers: Vec<Point>,
    /// The placement of the clients.
    pub mesh_clients: Vec<Point>,
    /// The fitness of the best placement; 1 is `UNIT * UNIT`.
    pub best_fitness: u128,
    /// The size of the giant component of the best placement.
    pub sgc: usize,
    /// The number of clients that the best placement covers.
    pub ncmc: usize,
    /// The covered clients per router, as a fixed-point number.
    pub ncmcpr: u128,
}

impl View for Report {
    type V = ReportView;

    open spec fn view(&self) -> ReportView {
        ReportView {
            mesh_routers: positions(&self.mesh_routers),
            mesh_clients: positions(&self.mesh_clients),
            best_fitness: self.best_fitness as nat,
            sgc: self.sgc as nat,
            ncmc: self.ncmc as nat,
            ncmcpr: self.ncmcpr as nat,
        }
    }
}

/// A search for a placement of the routers. It owns the population and
/// keeps the best placement seen.
pub struct Optimizer {
    config: Config,
    clients: Vec<Point>,
    routers: Vec<Point>,
    best_routers: Vec<Point>,
    best_fitness: u128,
}

impl View for Optimizer {
    type V = SearchState;

    closed spec fn view(&self) -> SearchState {
        SearchState {
            config: self.config,
            clients: positions(&self.clients),
            routers: positions(&self.routers),
            best_routers: positions(&self.best_routers),
            best_fitness: self.best_fitness as nat,
        }
    }
}

/// The seed of round `round` of a run seeded with `seed`.
pub fn seed_of_round(seed: u64, round: usize) -> (r: u64)
    ensures
        r == round_seed(seed, round as nat),
{
    let step = round as u64;
    if step <= u64::MAX - seed {
        seed + step
    } else {
        step - (u64::MAX - seed) - 1
    }
}

/// A copy of `points`.
pub fn copy_points(points: &Vec<Point>) -> (copy: Vec<Point>)
    ensures
        positions(&copy) == positions(points),
{
    let mut copy: Vec<Point> = Vec::new();
    let mut i: usize = 0;
    while i < points.len()
        invariant
            i <= points.len(),
            copy@.len() == i,
            forall|k: int| 0 <= k < i ==> (#[trigger] copy@[k])@ == points@[k]@,
        decreases points.len() - i,
    {
        let point = points[i].clone();
        assert(point@ =~= points@[i as int]@);
        copy.push(point);
        i += 1;
    }
    assert(positions(&copy) =~~= positions(points));
    copy
}

/// Reads `count` points of `dimensions` coordinates each from `draws`,
/// from point number `first` on.
pub fn place(draws: &Vec<i32>, dimensions: usize, first: usize, count: usize) -> (points: Vec<
    Point,
>)
    requires
        (first + count) * dimensions <= draws.len(),
    ensures
        positions(&points) == placed(draws@, dimensions as int, first as int, count as int),
{
    let ghost goal = placed(draws@, dimensions as int, first as int, count as int);
    let mut points: Vec<Point> = Vec::new();
    assert(first * dimensions <= (first + count) * dimensions && (first + 0) * dimensions == first
        * dimensions) by (nonlinear_arith)
        requires
            0 <= first,
            0 <= count,
            0 <= dimensions,
    ;
    let mut base: usize = first * dimensions;
    let mut i: usize = 0;
    while i < count
        invariant
            i <= count,
            (first + count) * dimensions <= draws.len(),
            goal == placed(draws@, dimensions as int, first as int, count as int),
            base == (first + i) * dimensions,
            points@.len() == i,
            forall|k: int| 0 <= k < i ==> (#[trigger] points@[k])@ == goal[k],
        decreases count - i,
    {
        assert((first + i) * dimensions + dimensions <= (first + count) * dimensions && (first
            + i) * dimensions + dimensions == (first + (i + 1)) * dimensions) by (nonlinear_arith)
            requires
                i < count,
                0 <= first,
                0 <= dimensions,
        ;
        let mut point: Vec<i32> = Vec::new();
        let mut d: usize = 0;
        while d < dimensions
            invariant
                d <= dimensions,
                i < count,
                base == (first + i) * dimensions,
                base + dimensions <= draws.len(),
                goal == placed(draws@, dimensions as int, first as int, count as int),
                point@.len() == d,
                forall|k: int| 0 <= k < d ==> point@[k] == goal[i as int][k],
            decreases dimensions - d,
        {
            point.push(draws[base + d]);
            d += 1;
        }
        assert(point@ =~= goal[i as int]);
        points.push(point);
        base = base + dimensions;
        i += 1;
    }
    assert(positions(&points) =~~= goal);
    points
}

impl Optimizer {
    /// The search is in a consistent state.
    pub open spec fn wf(&self) -> bool {
        consistent(self@)
    }

    /// Begins a search with the nodes placed as `draws` says: it holds the
    /// coordinates of the clients, point after point, then those of the
    /// routers. The first placement is the best so far.
    pub fn start(config: Config, draws: &Vec<i32>) -> (o: Optimizer)
        requires
            config.valid(),
            draws.len() == config.placement_draws(),
            forall|k: int|
                0 <= k < draws.len() ==> config.lower_bound <= #[trigger] draws@[k]
                    <= config.upper_bound,
        ensures
            o.wf(),
            o@ == started(config, draws@),
    {
        assert((0 + config.client_count) * config.dimensions <= (config.client_count
            + config.router_count) * config.dimensions) by (nonlinear_arith);
        let clients = place(draws, config.dimensions, 0, config.client_count);
        let routers = place(draws, config.dimensions, config.client_count, config.router_count);
        proof {
            lemma_placed_within_bounds(config, draws@, 0, config.client_count as int);
            lemma_placed_within_bounds(
                config,
                draws@,
                config.client_count as int,
                config.router_count as int,
            );
        }
        assert(positions(&routers).len() == config.router_count);
        let best_fitness = score(
            &config.weights(),
            &measure(&routers, &clients, config.max_comm_distance),
        );
        let best_routers = copy_points(&routers);
        Optimizer { config, clients, routers, best_routers, best_fitness }
    }

    /// Runs one round: sweeps the routers, and keeps them as the best
    /// placement where their fitness is strictly higher than the best so
    /// far. `noise` holds one random step, a fixed-point number in
    /// `[0, 1)`, for each coordinate of each ordered pair of routers.
    pub fn step<F: Fn(u128) -> u32>(&mut self, kernel: &F, noise: &Vec<i32>)
        requires
            old(self).wf(),
            is_decay(*kernel),
            noise.len() == old(self)@.config.round_draws(),
        ensures
            final(self).wf(),
            final(self)@ == advanced(old(self)@, decay_of(*kernel), noise@),
            final(self)@.best_fitness >= old(self)@.best_fitness,
            placement_ok(
                final(self)@.config,
                final(self)@.routers,
                final(self)@.config.router_count as int,
            ),
    {
        proof {
            lemma_round_keeps_consistent(self@, decay_of(*kernel), noise@);
        }
        let routers = sweep_routers(&self.config, kernel, &self.routers, noise);
        let current = score(
            &self.config.weights(),
            &measure(&routers, &self.clients, self.config.max_comm_distance),
        );
        if current > self.best_fitness {
            self.best_fitness = current;
            self.best_routers = copy_points(&routers);
        }
        self.routers = routers;
    }

    /// The configuration of the search.
    pub fn config(&self) -> (c: &Config)
        ensures
            *c == self@.config,
    {
        &self.config
    }

    /// The clients.
    pub fn clients(&self) -> (points: &Vec<Point>)
        ensures
            positions(points) == self@.clients,
    {
        &self.clients
    }

    /// The routers as they stand.
    pub fn routers(&self) -> (points: &Vec<Point>)
        ensures
            positions(points) == self@.routers,
    {
        &self.routers
    }

    /// The best placement of the routers seen so far.
    pub fn best_routers(&self) -> (points: &Vec<Point>)
        ensures
            positions(points) == self@.best_routers,
    {
        &self.best_routers
    }

    /// The fitness of the best placement seen so far.
    pub fn best_fitness(&self) -> (score: u128)
        ensures
            score == self@.best_fitness,
    {
        self.best_fitness
    }

    /// Ends the search and hands over the best placement with its fitness
    /// and its metrics.
    pub fn finish(self) -> (report: Report)
        requires
            self.wf(),
        ensures
            report@ == report_of(self@),
    {
        let found = measure(&self.best_routers, &self.clients, self.config.max_comm_distance);
        Report {
            mesh_routers: self.best_routers,
            mesh_clients: self.clients,
            best_fitness: self.best_fitness,
            sgc: found.sgc,
            ncmc: found.ncmc,
            ncmcpr: found.ncmcpr,
        }
    }
}

/// Places the routers of `config` by the firefly algorithm. The clients and
/// the first routers are drawn uniformly within the bounds; then, for
/// `iterations` rounds, every router is drawn toward every other and the
/// best placement is kept. All random numbers come from `seed`. `kernel`
/// gives the decay of light with distance: for a fixed-point `u` the
/// fixed-point value of `exp(-u)`.
pub fn firefly_algorithm<F: Fn(u128) -> u32>(config: &Config, seed: u64, kernel: F) -> (r:
    Result<Report, ConfigError>)
    requires
        is_decay(kernel),
    ensures
        match config.problem() {
            Some(fault) => r == Err::<Report, ConfigError>(fault),
            None => r matches Ok(report) && report@ == outcome(*config, decay_of(kernel), seed)
                && placement_ok(*config, report@.mesh_routers, config.router_count as int)
                && placement_ok(*config, report@.mesh_clients, config.client_count as int),
        },
{
    let (placement, per_round) = match config.sizes() {
        Err(fault) => {
            return Err(fault);
        },
        Ok(sizes) => sizes,
    };
    let ghost decay = decay_of(kernel);
    let draws = seeded_uniform(seed, config.lower_bound, config.upper_bound, placement);
    let mut optimizer = Optimizer::start(*config, &draws);
    let mut round: usize = 0;
    while round < config.iterations
        invariant
            round <= config.iterations,
            is_decay(kernel),
            decay == decay_of(kernel),
            config.valid(),
            per_round == config.round_draws(),
            optimizer.wf(),
            optimizer@ == state_after(*config, decay, seed, round as nat),
        decreases config.iterations - round,
    {
        round += 1;
        proof {
            lemma_run_keeps_clients(*config, decay, seed, (round - 1) as nat);
        }
        let noise = seeded_uniform(seed_of_round(seed, round), 0, (UNIT - 1) as i32, per_round);
        optimizer.step(&kernel, &noise);
    }
    proof {
        lemma_run_keeps_clients(*config, decay, seed, round as nat);
    }
    Ok(optimizer.finish())
}

} // verus!
