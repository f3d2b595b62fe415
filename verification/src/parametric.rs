use vstd::prelude::*;
use crate::text::{decimal, decimal_spec};

verus! {

/// How the parameter of an equation with a bounded domain behaves when it
/// runs past the upper bound.
#[derive(Clone, Copy, PartialEq, Eq, Structural, Debug)]
pub enum DomainLoopDirection {
    /// Jump back to the lower bound.
    Wrap,
    /// Turn around and run back towards the lower bound.
    PingPong,
}

/// What the editor holds of one parametric equation: the expressions as the
/// user typed them, the per-field error marks of the last compilation, and
/// the equation's settings.
pub struct ParametricEquationEditor {
    pub x_expr: String,
    pub y_expr: String,
    pub z_expr: String,
    pub spread_expr: String,
    pub x_expr_error: bool,
    pub y_expr_error: bool,
    pub z_expr_error: bool,
    pub spread_expr_error: bool,
    pub use_domain: bool,
    pub domain_lower_expr: String,
    pub domain_upper_expr: String,
    pub domain_lower_expr_error: bool,
    pub domain_upper_expr_error: bool,
    pub domain_direction: DomainLoopDirection,
    pub error: Option<String>,
    pub num_particles: usize,
    pub running: bool,
    pub hidden: bool,
}

/// The settings that every new equation starts with, whatever its
/// expressions: no error marks, running, shown, wrapping at the domain end.
pub open spec fn fresh_equation(e: ParametricEquationEditor) -> bool {
    &&& !e.x_expr_error && !e.y_expr_error && !e.z_expr_error && !e.spread_expr_error
    &&& !e.domain_lower_expr_error && !e.domain_upper_expr_error
    &&& e.error is None
    &&& e.domain_direction == DomainLoopDirection::Wrap
    &&& e.running && !e.hidden
    &&& e.spread_expr@ == "0.01"@
    &&& e.domain_lower_expr@ == "0.0"@
    &&& e.domain_upper_expr@ == "10.0"@
}

impl Default for ParametricEquationEditor {
    /// A blank equation: every coordinate `0`, ten particles, domain
    /// `[0.0, 10.0]` switched on.
    fn default() -> (r: ParametricEquationEditor)
        ensures
            fresh_equation(r),
            r.x_expr@ == "0"@ && r.y_expr@ == "0"@ && r.z_expr@ == "0"@,
            r.use_domain,
            r.num_particles == 10,
    {
        ParametricEquationEditor {
            x_expr: String::from_str("0"),
            y_expr: String::from_str("0"),
            z_expr: String::from_str("0"),
            spread_expr: String::from_str("0.01"),
            x_expr_error: false,
            y_expr_error: false,
            z_expr_error: false,
            spread_expr_error: false,
            use_domain: true,
            domain_lower_expr: String::from_str("0.0"),
            domain_upper_expr: String::from_str("10.0"),
            domain_lower_expr_error: false,
            domain_upper_expr_error: false,
            domain_direction: DomainLoopDirection::Wrap,
            error: None,
            num_particles: 10,
            running: true,
            hidden: false,
        }
    }
}

impl ParametricEquationEditor {
    /// The example equation shown at start-up: a Lissajous curve
    /// `(3sin(t), 2sin(2t), sin(3t))` traced by a thousand particles, with no
    /// domain.
    pub fn example() -> (r: ParametricEquationEditor)
        ensures
            fresh_equation(r),
            r.x_expr@ == "3sin(t)"@ && r.y_expr@ == "2sin(2t)"@ && r.z_expr@ == "sin(3t)"@,
            !r.use_domain,
            r.num_particles == 1000,
    {
        ParametricEquationEditor {
            x_expr: String::from_str("3sin(t)"),
            y_expr: String::from_str("2sin(2t)"),
            z_expr: String::from_str("sin(3t)"),
            spread_expr: String::from_str("0.01"),
            x_expr_error: false,
            y_expr_error: false,
            z_expr_error: false,
            spread_expr_error: false,
            use_domain: false,
            domain_lower_expr: String::from_str("0.0"),
            domain_upper_expr: String::from_str("10.0"),
            domain_lower_expr_error: false,
            domain_upper_expr_error: false,
            domain_direction: DomainLoopDirection::Wrap,
            error: None,
            num_particles: 1000,
            running: true,
            hidden: false,
        }
    }

    /// What the slot allocation needs to know of this equation, given
    /// whether its compilation failed.
    pub fn request(&self, failed: bool) -> (r: EquationRequest)
        ensures
            r == (EquationRequest {
                num_particles: self.num_particles,
                hidden: self.hidden,
                failed,
            }),
    {
        EquationRequest { num_particles: self.num_particles, hidden: self.hidden, failed }
    }
}

/// Why a parametric equation could not be compiled.
pub enum EquationError {
    /// The `x` expression did not compile; the parser's message.
    X(String),
    /// The `y` expression did not compile; the parser's message.
    Y(String),
    /// The `z` expression did not compile; the parser's message.
    Z(String),
    /// The spread is not a finite non-negative number.
    Spread,
    /// The domain bounds are not finite numbers with `max > min`.
    Domain,
}

/// The text shown under an equation that failed to compile.
pub open spec fn equation_error_text(e: EquationError) -> Seq<char> {
    match e {
        EquationError::X(m) => "x: "@ + m@,
        EquationError::Y(m) => "y: "@ + m@,
        EquationError::Z(m) => "z: "@ + m@,
        EquationError::Spread => "Spread must be a non-negative number"@,
        EquationError::Domain => "Domain must be finite and satisfy max > min"@,
    }
}

impl EquationError {
    /// The text shown under the failing equation.
    pub fn message(&self) -> (r: String)
        ensures
            r@ == equation_error_text(*self),
    {
        match self {
            EquationError::X(m) => {
                let mut s = String::from_str("x: ");
                s.append(m.as_str());
                s
            },
            EquationError::Y(m) => {
                let mut s = String::from_str("y: ");
                s.append(m.as_str());
                s
            },
            EquationError::Z(m) => {
                let mut s = String::from_str("z: ");
                s.append(m.as_str());
                s
            },
            EquationError::Spread => String::from_str("Spread must be a non-negative number"),
            EquationError::Domain => String::from_str("Domain must be finite and satisfy max > min"),
        }
    }
}

/// The error reported for an equation, checks taken in order: `x`, `y`,
/// `z`, spread, domain; the first failing one wins.
pub open spec fn first_error_spec(
    x: Option<String>,
    y: Option<String>,
    z: Option<String>,
    spread_invalid: bool,
    domain_invalid: bool,
) -> Option<EquationError> {
    if x is Some {
        Some(EquationError::X(x->0))
    } else if y is Some {
        Some(EquationError::Y(y->0))
    } else if z is Some {
        Some(EquationError::Z(z->0))
    } else if spread_invalid {
        Some(EquationError::Spread)
    } else if domain_invalid {
        Some(EquationError::Domain)
    } else {
        None
    }
}

/// Picks the error to report for one equation from the outcome of each of its
/// checks (the compiler's message for each coordinate expression, and whether
/// the spread and the domain are unusable).
pub fn first_equation_error(
    x: Option<String>,
    y: Option<String>,
    z: Option<String>,
    spread_invalid: bool,
    domain_invalid: bool,
) -> (r: Option<EquationError>)
    ensures
        r == first_error_spec(x, y, z, spread_invalid, domain_invalid),
{
    match x {
        Some(m) => Some(EquationError::X(m)),
        None => match y {
            Some(m) => Some(EquationError::Y(m)),
            None => match z {
                Some(m) => Some(EquationError::Z(m)),
                None => if spread_invalid {
                    Some(EquationError::Spread)
                } else if domain_invalid {
                    Some(EquationError::Domain)
                } else {
                    None
                },
            },
        },
    }
}

/// What the slot allocation needs to know of one equation.
#[derive(Clone, Copy, PartialEq, Eq, Structural)]
pub struct EquationRequest {
    /// How many particles the equation drives.
    pub num_particles: usize,
    /// Whether the equation's particles are to be hidden.
    pub hidden: bool,
    /// Whether the equation failed to compile.
    pub failed: bool,
}

/// A run of consecutive particle indices, `start .. start + count`.
#[derive(Clone, Copy, PartialEq, Eq, Structural, Debug)]
pub struct IndexRange {
    pub start: usize,
    pub count: usize,
}

impl IndexRange {
    /// The indices of the run, in increasing order.
    pub fn indices(&self) -> (r: Vec<usize>)
        requires
            self.start + self.count <= usize::MAX,
        ensures
            r@.len() == self.count,
            forall|i: int| 0 <= i < self.count ==> #[trigger] r@[i] == self.start + i,
    {
        let mut r: Vec<usize> = Vec::new();
        let mut i: usize = 0;
        while i < self.count
            invariant
                i <= self.count,
                self.start + self.count <= usize::MAX,
                r@.len() == i,
                forall|j: int| 0 <= j < i ==> #[trigger] r@[j] == self.start + j,
            decreases self.count - i,
        {
            r.push(self.start + i);
            i = i + 1;
        }
        r
    }
}

/// Why the equations could not all be given particles.
pub enum PlanError {
    /// Together the equations ask for more particles than exist.
    TooManyParticles { requested: usize, available: usize },
    /// At least one equation failed to compile.
    EquationErrors,
}

/// The text shown for a failed allocation.
pub open spec fn plan_error_text(e: PlanError) -> Seq<char> {
    match e {
        PlanError::TooManyParticles { requested, available } => "Total particles requested ("@
            + decimal_spec(requested as nat) + ") exceeds available ("@ + decimal_spec(
            available as nat,
        ) + ")"@,
        PlanError::EquationErrors => "Fix equation errors above"@,
    }
}

impl PlanError {
    /// The text shown for a failed allocation.
    pub fn message(&self) -> (r: String)
        ensures
            r@ == plan_error_text(*self),
    {
        match self {
            PlanError::TooManyParticles { requested, available } => {
                let mut s = String::from_str("Total particles requested (");
                let a = decimal(*requested);
                s.append(a.as_str());
                s.append(") exceeds available (");
                let b = decimal(*available);
                s.append(b.as_str());
                s.append(")");
                s
            },
            PlanError::EquationErrors => String::from_str("Fix equation errors above"),
        }
    }
}

/// The sum of `counts`.
pub open spec fn sum_of(counts: Seq<usize>) -> int
    decreases counts.len(),
{
    if counts.len() == 0 {
        0
    } else {
        sum_of(counts.drop_last()) + counts.last()
    }
}

/// How many particles the first `k` equations ask for.
pub open spec fn requested_prefix(reqs: Seq<EquationRequest>, k: int) -> int
    decreases k,
{
    if k <= 0 {
        0
    } else {
        requested_prefix(reqs, k - 1) + reqs[k - 1].num_particles
    }
}

/// How many particles all the equations ask for.
pub open spec fn total_requested(reqs: Seq<EquationRequest>) -> int {
    requested_prefix(reqs, reqs.len() as int)
}

/// The first index given to equation `k`: the particles taken by the
/// equations before it that compiled.
pub open spec fn offset_before(reqs: Seq<EquationRequest>, k: int) -> int
    decreases k,
{
    if k <= 0 {
        0
    } else {
        offset_before(reqs, k - 1) + if reqs[k - 1].failed {
            0
        } else {
            reqs[k - 1].num_particles as int
        }
    }
}

/// Some equation failed to compile.
pub open spec fn any_failed(reqs: Seq<EquationRequest>) -> bool {
    exists|k: int| 0 <= k < reqs.len() && (#[trigger] reqs[k]).failed
}

/// Particle `i` lies in the run of one of the first `k` equations that
/// compiled and asks for its particles to be hidden.
pub open spec fn hidden_by(reqs: Seq<EquationRequest>, k: int, i: int) -> bool
    decreases k,
{
    if k <= 0 {
        false
    } else {
        hidden_by(reqs, k - 1, i) || (!reqs[k - 1].failed && reqs[k - 1].hidden && offset_before(
            reqs,
            k - 1,
        ) <= i < offset_before(reqs, k - 1) + reqs[k - 1].num_particles)
    }
}

/// Whether particle `i`, hidden before as `was_hidden`, is hidden after the
/// allocation: in parametric mode everything is first shown again; then the
/// runs of hidden equations are hidden, and, when every equation compiled in
/// parametric mode, so is every particle that no equation claimed.
pub open spec fn hidden_after_plan(
    reqs: Seq<EquationRequest>,
    use_parametric: bool,
    was_hidden: bool,
    i: int,
) -> bool {
    ||| !use_parametric && was_hidden
    ||| hidden_by(reqs, reqs.len() as int, i)
    ||| use_parametric && !any_failed(reqs) && i >= offset_before(reqs, reqs.len() as int)
}

proof fn lemma_requested_prefix_mono(reqs: Seq<EquationRequest>, j: int, k: int)
    requires
        0 <= j <= k <= reqs.len(),
    ensures
        requested_prefix(reqs, j) <= requested_prefix(reqs, k),
        offset_before(reqs, k) - offset_before(reqs, j) <= requested_prefix(reqs, k)
            - requested_prefix(reqs, j),
        offset_before(reqs, j) <= offset_before(reqs, k),
    decreases k - j,
{
    if j < k {
        lemma_requested_prefix_mono(reqs, j, k - 1);
    }
}

proof fn lemma_hidden_by_outside(reqs: Seq<EquationRequest>, k: int, i: int)
    requires
        0 <= k <= reqs.len(),
        i >= offset_before(reqs, k),
    ensures
        !hidden_by(reqs, k, i),
    decreases k,
{
    if k > 0 {
        lemma_requested_prefix_mono(reqs, k - 1, k);
        lemma_hidden_by_outside(reqs, k - 1, i);
        let step: int = if reqs[k - 1].failed {
            0
        } else {
            reqs[k - 1].num_particles as int
        };
        assert(offset_before(reqs, k) == offset_before(reqs, k - 1) + step);
        assert(hidden_by(reqs, k, i) == (hidden_by(reqs, k - 1, i) || (!reqs[k - 1].failed
            && reqs[k - 1].hidden && offset_before(reqs, k - 1) <= i < offset_before(reqs, k - 1)
            + reqs[k - 1].num_particles)));
    }
}

/// Gives each compiled equation its run of particles, in order and back to
/// back from index 0, and updates the hidden flags of the particles.
///
/// When the equations together ask for more particles than `hidden` holds,
/// nothing changes and `TooManyParticles` is returned. Otherwise, in
/// parametric mode every particle is first shown; the run of every compiled
/// equation that asks to be hidden is hidden; if some equation failed the
/// result is `EquationErrors`, else, in parametric mode, the particles that
/// no equation claimed are hidden and the runs are returned, one per
/// equation.
pub fn plan_parametric(
    reqs: &Vec<EquationRequest>,
    use_parametric: bool,
    hidden: &mut Vec<bool>,
) -> (r: Result<Vec<IndexRange>, PlanError>)
    requires
        total_requested(reqs@) <= usize::MAX,
    ensures
        total_requested(reqs@) > old(hidden)@.len() ==> final(hidden)@ == old(hidden)@ && r
            == Err::<Vec<IndexRange>, PlanError>(
            (PlanError::TooManyParticles {
                requested: total_requested(reqs@) as usize,
                available: old(hidden)@.len() as usize,
            }),
        ),
        total_requested(reqs@) <= old(hidden)@.len() ==> {
            &&& final(hidden)@.len() == old(hidden)@.len()
            &&& forall|i: int|
                0 <= i < old(hidden)@.len() ==> #[trigger] final(hidden)@[i] == hidden_after_plan(
                    reqs@,
                    use_parametric,
                    old(hidden)@[i],
                    i,
                )
            &&& any_failed(reqs@) ==> (r matches Err(PlanError::EquationErrors))
            &&& !any_failed(reqs@) ==> (r matches Ok(ranges) && ranges@.len() == reqs@.len() && (
            forall|k: int|
                0 <= k < reqs@.len() ==> #[trigger] ranges@[k] == (IndexRange {
                    start: offset_before(reqs@, k) as usize,
                    count: reqs@[k].num_particles,
                })))
        },
{
    let n = reqs.len();
    let mut total: usize = 0;
    let mut k: usize = 0;
    while k < n
        invariant
            n == reqs@.len(),
            k <= n,
            total == requested_prefix(reqs@, k as int),
            total_requested(reqs@) <= usize::MAX,
        decreases n - k,
    {
        proof {
            lemma_requested_prefix_mono(reqs@, k + 1, n as int);
        }
        total = total + reqs[k].num_particles;
        k = k + 1;
    }
    let len = hidden.len();
    if total > len {
        return Err(PlanError::TooManyParticles { requested: total, available: len });
    }
    let ghost old_hidden = hidden@;
    if use_parametric {
        let mut i: usize = 0;
        while i < len
            invariant
                len == hidden@.len(),
                i <= len,
                forall|j: int| 0 <= j < i ==> #[trigger] hidden@[j] == false,
            decreases len - i,
        {
            hidden.set(i, false);
            i = i + 1;
        }
    }
    let mut ranges: Vec<IndexRange> = Vec::new();
    let mut offset: usize = 0;
    let mut failed = false;
    let mut k: usize = 0;
    while k < n
        invariant
            n == reqs@.len(),
            k <= n,
            len == hidden@.len(),
            len == old_hidden.len(),
            total == total_requested(reqs@),
            total <= len,
            offset == offset_before(reqs@, k as int),
            failed == (exists|j: int| 0 <= j < k && (#[trigger] reqs@[j]).failed),
            !failed ==> ranges@.len() == k,
            !failed ==> forall|j: int|
                0 <= j < k ==> #[trigger] ranges@[j] == (IndexRange {
                    start: offset_before(reqs@, j) as usize,
                    count: reqs@[j].num_particles,
                }),
            forall|i: int|
                0 <= i < len ==> #[trigger] hidden@[i] == ((!use_parametric && old_hidden[i])
                    || hidden_by(reqs@, k as int, i)),
        decreases n - k,
    {
        proof {
            lemma_requested_prefix_mono(reqs@, k as int, n as int);
            lemma_requested_prefix_mono(reqs@, k + 1, n as int);
            lemma_requested_prefix_mono(reqs@, 0, k as int);
        }
        let req = reqs[k];
        if req.failed {
            failed = true;
        } else {
            ranges.push(IndexRange { start: offset, count: req.num_particles });
            let end = offset + req.num_particles;
            if req.hidden {
                let mut i = offset;
                while i < end
                    invariant
                        offset <= i <= end <= len,
                        len == hidden@.len(),
                        len == old_hidden.len(),
                        forall|j: int|
                            0 <= j < len ==> #[trigger] hidden@[j] == ((!use_parametric
                                && old_hidden[j]) || hidden_by(reqs@, k as int, j) || (offset <= j
                                < i)),
                    decreases end - i,
                {
                    hidden.set(i, true);
                    i = i + 1;
                }
            }
            offset = end;
        }
        k = k + 1;
        proof {
            assert forall|j: int| 0 <= j < k && (#[trigger] reqs@[j]).failed implies failed by {
                if j < k - 1 {
                } else {
                    assert(req == reqs@[j]);
                }
            }
        }
    }
    if failed {
        return Err(PlanError::EquationErrors);
    }
    proof {
        lemma_requested_prefix_mono(reqs@, 0, n as int);
    }
    if use_parametric {
        let mut i = offset;
        while i < len
            invariant
                offset <= i <= len,
                len == hidden@.len(),
                len == old_hidden.len(),
                n == reqs@.len(),
                offset == offset_before(reqs@, n as int),
                forall|j: int|
                    0 <= j < len ==> #[trigger] hidden@[j] == (hidden_by(reqs@, n as int, j) || (
                    offset <= j < i)),
            decreases len - i,
        {
            hidden.set(i, true);
            i = i + 1;
        }
        proof {
            assert forall|j: int| 0 <= j < len implies #[trigger] hidden@[j] == hidden_after_plan(
                reqs@,
                use_parametric,
                old_hidden[j],
                j,
            ) by {
                if j >= offset {
                    lemma_hidden_by_outside(reqs@, n as int, j);
                }
            }
        }
    }
    Ok(ranges)
}

/// The hidden flags after switching between simulation and parametric mode:
/// everything is shown, and in parametric mode the particles from `claimed`
/// on (those that no equation drives) are hidden.
pub fn apply_mode_hiding(hidden: &mut Vec<bool>, claimed: &Vec<usize>, use_parametric: bool)
    requires
        sum_of(claimed@) <= usize::MAX,
    ensures
        final(hidden)@.len() == old(hidden)@.len(),
        forall|i: int|
            0 <= i < old(hidden)@.len() ==> #[trigger] final(hidden)@[i] == (use_parametric && i
                >= sum_of(claimed@)),
{
    let mut used: usize = 0;
    let mut k: usize = 0;
    while k < claimed.len()
        invariant
            k <= claimed@.len(),
            used == sum_of(claimed@.take(k as int)),
            sum_of(claimed@) <= usize::MAX,
        decreases claimed.len() - k,
    {
        proof {
            assert(claimed@.take(k + 1).drop_last() =~= claimed@.take(k as int));
            lemma_sum_prefix_le(claimed@, k + 1);
        }
        used = used + claimed[k];
        k = k + 1;
    }
    assert(claimed@.take(claimed@.len() as int) =~= claimed@);
    let len = hidden.len();
    let mut i: usize = 0;
    while i < len
        invariant
            len == hidden@.len(),
            i <= len,
            used == sum_of(claimed@),
            forall|j: int| 0 <= j < i ==> #[trigger] hidden@[j] == (use_parametric && j >= used),
        decreases len - i,
    {
        hidden.set(i, use_parametric && i >= used);
        i = i + 1;
    }
}

/// Particle `i` lies in the run given to equation `k` (which compiled).
pub open spec fn in_run(reqs: Seq<EquationRequest>, k: int, i: int) -> bool {
    &&& !reqs[k].failed
    &&& offset_before(reqs, k) <= i < offset_before(reqs, k) + reqs[k].num_particles
}

/// The runs of distinct equations never share a particle, and every run
/// lies below the end of the last run, which itself does not exceed the
/// number of particles requested: no particle is driven by two equations.
pub proof fn lemma_runs_disjoint(reqs: Seq<EquationRequest>, j: int, k: int, i: int)
    requires
        0 <= j < reqs.len(),
        0 <= k < reqs.len(),
        j != k,
        in_run(reqs, j, i),
    ensures
        !in_run(reqs, k, i),
        i < offset_before(reqs, reqs.len() as int),
        offset_before(reqs, reqs.len() as int) <= total_requested(reqs),
{
    lemma_requested_prefix_mono(reqs, 0, reqs.len() as int);
    lemma_requested_prefix_mono(reqs, j + 1, reqs.len() as int);
    if j < k {
        lemma_requested_prefix_mono(reqs, j + 1, k);
    } else {
        lemma_requested_prefix_mono(reqs, k + 1, j);
    }
}

proof fn lemma_hidden_by_runs(reqs: Seq<EquationRequest>, m: int, i: int)
    requires
        0 <= m <= reqs.len(),
    ensures
        hidden_by(reqs, m, i) <==> exists|k: int|
            0 <= k < m && #[trigger] in_run(reqs, k, i) && reqs[k].hidden,
    decreases m,
{
    if m > 0 {
        lemma_hidden_by_runs(reqs, m - 1, i);
        if hidden_by(reqs, m, i) && !hidden_by(reqs, m - 1, i) {
            assert(in_run(reqs, m - 1, i));
        }
        if exists|k: int| 0 <= k < m && #[trigger] in_run(reqs, k, i) && reqs[k].hidden {
            let k = choose|k: int| 0 <= k < m && #[trigger] in_run(reqs, k, i) && reqs[k].hidden;
            if k < m - 1 {
                assert(exists|k2: int| 0 <= k2 < m - 1 && #[trigger] in_run(reqs, k2, i) && reqs[k2].hidden);
            }
        }
    }
}

proof fn lemma_runs_cover(reqs: Seq<EquationRequest>, m: int, i: int)
    requires
        0 <= m <= reqs.len(),
        0 <= i < offset_before(reqs, m),
    ensures
        exists|k: int| 0 <= k < m && #[trigger] in_run(reqs, k, i),
    decreases m,
{
    if m > 0 {
        if i < offset_before(reqs, m - 1) {
            lemma_runs_cover(reqs, m - 1, i);
            let k = choose|k: int| 0 <= k < m - 1 && #[trigger] in_run(reqs, k, i);
            assert(in_run(reqs, k, i));
        } else {
            assert(in_run(reqs, m - 1, i));
        }
    }
}

/// Once every equation has compiled in parametric mode, a particle is shown
/// exactly when it lies in the run of an equation that is not hidden.
pub proof fn lemma_parametric_visibility(reqs: Seq<EquationRequest>, was_hidden: bool, i: int)
    requires
        !any_failed(reqs),
        0 <= i,
    ensures
        !hidden_after_plan(reqs, true, was_hidden, i) <==> exists|k: int|
            0 <= k < reqs.len() && #[trigger] in_run(reqs, k, i) && !reqs[k].hidden,
{
    let n = reqs.len() as int;
    lemma_hidden_by_runs(reqs, n, i);
    if i < offset_before(reqs, n) {
        lemma_runs_cover(reqs, n, i);
        let k = choose|k: int| 0 <= k < n && #[trigger] in_run(reqs, k, i);
        assert forall|k2: int| 0 <= k2 < n && k2 != k implies !#[trigger] in_run(reqs, k2, i) by {
            lemma_runs_disjoint(reqs, k, k2, i);
        }
        if reqs[k].hidden {
            assert(hidden_by(reqs, n, i));
        } else {
            assert(!hidden_by(reqs, n, i));
        }
    } else {
        assert forall|k: int| 0 <= k < n implies !#[trigger] in_run(reqs, k, i) by {
            lemma_requested_prefix_mono(reqs, k + 1, n);
        }
    }
}

/// What compiling one equation found, as plain facts: the compiler's
/// message for each coordinate expression that failed, whether the spread is
/// unusable, and, for the domain, whether each bound is unusable and whether
/// the bounds are out of order (`max <= min`).
pub struct EquationCheck {
    pub x_error: Option<String>,
    pub y_error: Option<String>,
    pub z_error: Option<String>,
    pub spread_invalid: bool,
    pub lower_invalid: bool,
    pub upper_invalid: bool,
    pub bounds_out_of_order: bool,
}

/// The domain of an equation is unusable: it is switched on and one of its
/// bounds is unusable or the bounds are out of order.
pub open spec fn domain_invalid(use_domain: bool, c: EquationCheck) -> bool {
    use_domain && (c.lower_invalid || c.upper_invalid || c.bounds_out_of_order)
}

/// The error reported for an equation with these checks.
pub open spec fn check_error(use_domain: bool, c: EquationCheck) -> Option<EquationError> {
    first_error_spec(c.x_error, c.y_error, c.z_error, c.spread_invalid, domain_invalid(use_domain, c))
}

/// The allocation request of an equation with these checks.
pub open spec fn check_request(e: ParametricEquationEditor, c: EquationCheck) -> EquationRequest {
    EquationRequest {
        num_particles: e.num_particles,
        hidden: e.hidden,
        failed: check_error(e.use_domain, c) is Some,
    }
}

/// The allocation requests of all equations.
pub open spec fn check_requests(eqs: Seq<ParametricEquationEditor>, checks: Seq<EquationCheck>) -> Seq<
    EquationRequest,
> {
    Seq::new(eqs.len(), |k: int| check_request(eqs[k], checks[k]))
}

/// Equation `after` is `before` with the marks and message of `c` recorded.
pub open spec fn recorded(
    before: ParametricEquationEditor,
    after: ParametricEquationEditor,
    c: EquationCheck,
) -> bool {
    &&& after.x_expr_error == c.x_error is Some
    &&& after.y_expr_error == c.y_error is Some
    &&& after.z_expr_error == c.z_error is Some
    &&& after.spread_expr_error == c.spread_invalid
    &&& after.domain_lower_expr_error == (before.use_domain && c.lower_invalid)
    &&& after.domain_upper_expr_error == (before.use_domain && c.upper_invalid)
    &&& match check_error(before.use_domain, c) {
        Some(e) => after.error matches Some(m) && m@ == equation_error_text(e),
        None => after.error is None,
    }
    &&& after.x_expr == before.x_expr && after.y_expr == before.y_expr
    &&& after.z_expr == before.z_expr && after.spread_expr == before.spread_expr
    &&& after.use_domain == before.use_domain
    &&& after.domain_lower_expr == before.domain_lower_expr
    &&& after.domain_upper_expr == before.domain_upper_expr
    &&& after.domain_direction == before.domain_direction
    &&& after.num_particles == before.num_particles
    &&& after.running == before.running && after.hidden == before.hidden
}

fn total_of(eqs: &Vec<ParametricEquationEditor>) -> (r: Option<usize>)
    ensures
        match r {
            Some(t) => t == sum_of(eqs@.map_values(|e: ParametricEquationEditor| e.num_particles)),
            None => sum_of(eqs@.map_values(|e: ParametricEquationEditor| e.num_particles))
                > usize::MAX,
        },
{
    let ghost counts = eqs@.map_values(|e: ParametricEquationEditor| e.num_particles);
    let mut total: usize = 0;
    let mut k: usize = 0;
    while k < eqs.len()
        invariant
            k <= eqs@.len(),
            counts == eqs@.map_values(|e: ParametricEquationEditor| e.num_particles),
            total == sum_of(counts.take(k as int)),
        decreases eqs.len() - k,
    {
        proof {
            assert(counts.take(k + 1).drop_last() =~= counts.take(k as int));
        }
        let n = eqs[k].num_particles;
        if n > usize::MAX - total {
            proof {
                lemma_sum_prefix_le(counts, k + 1);
            }
            return None;
        }
        total = total + n;
        k = k + 1;
    }
    assert(counts.take(counts.len() as int) =~= counts);
    Some(total)
}

proof fn lemma_requests_total(eqs: Seq<ParametricEquationEditor>, checks: Seq<EquationCheck>, k: int)
    requires
        0 <= k <= eqs.len(),
        eqs.len() == checks.len(),
    ensures
        requested_prefix(check_requests(eqs, checks), k) == sum_of(
            eqs.map_values(|e: ParametricEquationEditor| e.num_particles).take(k),
        ),
    decreases k,
{
    if k > 0 {
        lemma_requests_total(eqs, checks, k - 1);
        let counts = eqs.map_values(|e: ParametricEquationEditor| e.num_particles);
        assert(counts.take(k).drop_last() =~= counts.take(k - 1));
    }
}

/// The bookkeeping of compiling the editor's equations, given what compiling
/// each one found (`checks[k]` for `eqs[k]`).
///
/// When the equations together ask for more particles than exist, or more
/// than a `usize` counts, nothing changes and `TooManyParticles` is returned
/// (its `requested` then saturates at `usize::MAX`). Otherwise every
/// equation records the error marks of its checks and the message of its
/// first failing check, and the particles are allocated and their hidden
/// flags updated as `plan_parametric` does for the requests that the checks
/// give.
pub fn apply_equation_checks(
    eqs: &mut Vec<ParametricEquationEditor>,
    checks: &Vec<EquationCheck>,
    use_parametric: bool,
    hidden: &mut Vec<bool>,
) -> (r: Result<Vec<IndexRange>, PlanError>)
    requires
        old(eqs)@.len() == checks@.len(),
    ensures
        ({
            let reqs = check_requests(old(eqs)@, checks@);
            if total_requested(reqs) > old(hidden)@.len() {
                &&& final(eqs)@ == old(eqs)@
                &&& final(hidden)@ == old(hidden)@
                &&& r matches Err(PlanError::TooManyParticles { requested, available })
                &&& requested == if total_requested(reqs) > usize::MAX {
                    usize::MAX as int
                } else {
                    total_requested(reqs)
                }
                &&& available == old(hidden)@.len()
            } else {
                &&& final(eqs)@.len() == old(eqs)@.len()
                &&& forall|k: int|
                    0 <= k < old(eqs)@.len() ==> recorded(
                        old(eqs)@[k],
                        #[trigger] final(eqs)@[k],
                        checks@[k],
                    )
                &&& final(hidden)@.len() == old(hidden)@.len()
                &&& forall|i: int|
                    0 <= i < old(hidden)@.len() ==> #[trigger] final(hidden)@[i]
                        == hidden_after_plan(reqs, use_parametric, old(hidden)@[i], i)
                &&& any_failed(reqs) ==> (r matches Err(PlanError::EquationErrors))
                &&& !any_failed(reqs) ==> (r matches Ok(ranges) && ranges@.len() == reqs.len() && (
                forall|k: int|
                    0 <= k < reqs.len() ==> #[trigger] ranges@[k] == (IndexRange {
                        start: offset_before(reqs, k) as usize,
                        count: reqs[k].num_particles,
                    })))
            }
        }),
{
    let ghost reqs = check_requests(eqs@, checks@);
    proof {
        lemma_requests_total(eqs@, checks@, eqs@.len() as int);
        assert(eqs@.map_values(|e: ParametricEquationEditor| e.num_particles).take(
            eqs@.len() as int,
        ) =~= eqs@.map_values(|e: ParametricEquationEditor| e.num_particles));
    }
    let total = match total_of(eqs) {
        Some(t) => t,
        None => {
            return Err(PlanError::TooManyParticles { requested: usize::MAX, available: hidden.len() });
        },
    };
    if total > hidden.len() {
        return Err(PlanError::TooManyParticles { requested: total, available: hidden.len() });
    }
    let mut requests: Vec<EquationRequest> = Vec::new();
    let mut errors: Vec<Option<EquationError>> = Vec::new();
    let mut k: usize = 0;
    while k < eqs.len()
        invariant
            k <= eqs@.len(),
            eqs@.len() == checks@.len(),
            reqs == check_requests(eqs@, checks@),
            requests@.len() == k,
            errors@.len() == k,
            forall|j: int| 0 <= j < k ==> #[trigger] requests@[j] == reqs[j],
            forall|j: int|
                0 <= j < k ==> #[trigger] errors@[j] == check_error(
                    eqs@[j].use_domain,
                    checks@[j],
                ),
        decreases eqs.len() - k,
    {
        let c = &checks[k];
        let e = &eqs[k];
        let bad_domain = e.use_domain && (c.lower_invalid || c.upper_invalid
            || c.bounds_out_of_order);
        let err = first_equation_error(
            c.x_error.clone(),
            c.y_error.clone(),
            c.z_error.clone(),
            c.spread_invalid,
            bad_domain,
        );
        let failed = match &err {
            Some(_) => true,
            None => false,
        };
        requests.push(e.request(failed));
        errors.push(err);
        k = k + 1;
    }
    assert(requests@ =~= reqs);
    let r = plan_parametric(&requests, use_parametric, hidden);
    let ghost old_eqs = eqs@;
    let mut k: usize = 0;
    while k < eqs.len()
        invariant
            k <= eqs@.len(),
            eqs@.len() == old_eqs.len(),
            old_eqs.len() == checks@.len(),
            errors@.len() == old_eqs.len(),
            forall|j: int|
                0 <= j < errors@.len() ==> #[trigger] errors@[j] == check_error(
                    old_eqs[j].use_domain,
                    checks@[j],
                ),
            forall|j: int| 0 <= j < k ==> recorded(old_eqs[j], #[trigger] eqs@[j], checks@[j]),
            forall|j: int| k <= j < eqs@.len() ==> #[trigger] eqs@[j] == old_eqs[j],
        decreases eqs.len() - k,
    {
        let c = &checks[k];
        let mut e = eqs.remove(k);
        let ghost before = e;
        e.x_expr_error = c.x_error.is_some();
        e.y_expr_error = c.y_error.is_some();
        e.z_expr_error = c.z_error.is_some();
        e.spread_expr_error = c.spread_invalid;
        e.domain_lower_expr_error = e.use_domain && c.lower_invalid;
        e.domain_upper_expr_error = e.use_domain && c.upper_invalid;
        e.error = match &errors[k] {
            Some(err) => Some(err.message()),
            None => None,
        };
        eqs.insert(k, e);
        proof {
            assert(recorded(before, eqs@[k as int], checks@[k as int]));
        }
        k = k + 1;
    }
    r
}

/// Which particles the allocation leaves hidden, in terms of the runs: a
/// particle is hidden afterwards exactly when (in simulation mode) it was
/// hidden before, or it lies in the run of a compiled equation that asks to be
/// hidden, or (in parametric mode with every equation compiled) it lies in no
/// run at all. In particular, in simulation mode no particle outside the runs
/// of hidden equations is hidden that was visible before.
pub proof fn lemma_hiding_by_runs(
    reqs: Seq<EquationRequest>,
    use_parametric: bool,
    was_hidden: bool,
    i: int,
)
    requires
        0 <= i,
    ensures
        hidden_after_plan(reqs, use_parametric, was_hidden, i) <==> {
            ||| !use_parametric && was_hidden
            ||| exists|k: int| 0 <= k < reqs.len() && #[trigger] in_run(reqs, k, i) && reqs[k].hidden
            ||| use_parametric && !any_failed(reqs) && !exists|k: int|
                0 <= k < reqs.len() && #[trigger] in_run(reqs, k, i)
        },
        !use_parametric ==> (hidden_after_plan(reqs, use_parametric, was_hidden, i) <==> (was_hidden
            || exists|k: int| 0 <= k < reqs.len() && #[trigger] in_run(reqs, k, i) && reqs[k].hidden)),
{
    let n = reqs.len() as int;
    lemma_hidden_by_runs(reqs, n, i);
    if i < offset_before(reqs, n) {
        lemma_runs_cover(reqs, n, i);
    } else {
        assert forall|k: int| 0 <= k < n implies !#[trigger] in_run(reqs, k, i) by {
            lemma_requested_prefix_mono(reqs, k + 1, n);
        }
    }
}

/// An equation whose domain is switched on and unusable (a bound is not a
/// finite number, or `max <= min`) always fails: its allocation request is
/// marked failed, and when its expressions and spread are fine, the error it
/// reports is the domain error.
pub proof fn lemma_bad_domain_fails(e: ParametricEquationEditor, c: EquationCheck)
    requires
        e.use_domain,
        c.lower_invalid || c.upper_invalid || c.bounds_out_of_order,
    ensures
        check_request(e, c).failed,
        check_error(e.use_domain, c) is Some,
        c.x_error is None && c.y_error is None && c.z_error is None && !c.spread_invalid
            ==> check_error(e.use_domain, c) == Some(EquationError::Domain),
{
}

/// An equation reports no error exactly when none of its checks failed: its
/// three expressions compiled, its spread is usable, and, when its domain is
/// switched on, both bounds are usable and `max > min`.
pub proof fn lemma_check_error_none_iff(use_domain: bool, c: EquationCheck)
    ensures
        check_error(use_domain, c) is None <==> (c.x_error is None && c.y_error is None
            && c.z_error is None && !c.spread_invalid && !(use_domain && (c.lower_invalid
            || c.upper_invalid || c.bounds_out_of_order))),
{
}

/// One equation with an unusable domain that is switched on makes the whole
/// compilation fail (`apply_equation_checks` then returns `EquationErrors`).
pub proof fn lemma_bad_domain_rejects_all(
    eqs: Seq<ParametricEquationEditor>,
    checks: Seq<EquationCheck>,
    k: int,
)
    requires
        eqs.len() == checks.len(),
        0 <= k < eqs.len(),
        eqs[k].use_domain,
        checks[k].lower_invalid || checks[k].upper_invalid || checks[k].bounds_out_of_order,
    ensures
        any_failed(check_requests(eqs, checks)),
{
    lemma_bad_domain_fails(eqs[k], checks[k]);
    assert(check_requests(eqs, checks)[k].failed);
}

proof fn lemma_sum_prefix_le(s: Seq<usize>, k: int)
    requires
        0 <= k <= s.len(),
    ensures
        sum_of(s.take(k)) <= sum_of(s),
    decreases s.len() - k,
{
    if k < s.len() {
        lemma_sum_prefix_le(s, k + 1);
        assert(s.take(k + 1).drop_last() =~= s.take(k));
    } else {
        assert(s.take(k) =~= s);
    }
}

} // verus!
