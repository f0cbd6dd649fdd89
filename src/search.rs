use crate::adapt::{lemma_shrunk_max_bounds, shrink_due, shrink_is_due, shrink_max, shrunk_max};
use crate::generate::{
    draw_below, footprint, rasterize, second_anchor, second_anchor_spec, Proposal, OFFSET_SCALE,
};
use crate::palette::{build_palette, palette_of};
use crate::raster::{black, Raster, Rgb};
use crate::scoring::{accept, accepts, covers, draw};
use crate::shapes::{abs_diff, ShapeKind};
use rand::rngs::StdRng;
use vstd::prelude::*;

verus! {

/// A resolved run configuration.
#[derive(Clone, Debug)]
pub struct Config {
    pub iterations: u64,
    pub min_size: u32,
    pub max_size: u32,
    pub shapes: Vec<ShapeKind>,
    pub uniform_palette: bool,
    pub adaptive: bool,
    pub adapt_rate: u64,
    /// The shrink factor is `adapt_coeff_num / adapt_coeff_den`.
    pub adapt_coeff_num: u32,
    pub adapt_coeff_den: u32,
    pub biased: bool,
    pub animate: bool,
    pub animation_interval: u64,
    pub quiet: bool,
}

/// Why a configuration is refused before the loop starts.
#[derive(Clone, Copy, Debug, PartialEq, Eq, Structural)]
pub enum ConfigError {
    NoShapes,
    SizeRange,
    AdaptRate,
    AdaptCoeff,
    AnimationInterval,
    UnknownShape,
}

/// The shape kind a name stands for: the ASCII bytes of "lines" or of "rectangles".
pub open spec fn kind_of(name: Seq<u8>) -> Option<ShapeKind> {
    if name == seq![108u8, 105u8, 110u8, 101u8, 115u8] {
        Some(ShapeKind::Line)
    } else if name == seq![114u8, 101u8, 99u8, 116u8, 97u8, 110u8, 103u8, 108u8, 101u8, 115u8] {
        Some(ShapeKind::Rectangle)
    } else {
        None
    }
}

/// Reads the rest `s` of a comma-separated (byte 44) list of names, with `tok` the
/// name read so far and `acc` the kinds of the names before it.
pub open spec fn parse_names(s: Seq<u8>, tok: Seq<u8>, acc: Seq<ShapeKind>) -> Option<Seq<ShapeKind>>
    decreases s.len(),
{
    if s.len() == 0 {
        match kind_of(tok) {
            Some(k) => Some(acc.push(k)),
            None => None,
        }
    } else if s[0] == 44u8 {
        match kind_of(tok) {
            Some(k) => parse_names(s.drop_first(), seq![], acc.push(k)),
            None => None,
        }
    } else {
        parse_names(s.drop_first(), tok.push(s[0]), acc)
    }
}

fn name_to_kind(name: &Vec<u8>) -> (r: Option<ShapeKind>)
    ensures
        r == kind_of(name@),
{
    let n = name.len();
    if n == 5 && name[0] == 108u8 && name[1] == 105u8 && name[2] == 110u8 && name[3] == 101u8
        && name[4] == 115u8 {
        proof {
            assert(name@ =~= seq![108u8, 105u8, 110u8, 101u8, 115u8]);
        }
        Some(ShapeKind::Line)
    } else if n == 10 && name[0] == 114u8 && name[1] == 101u8 && name[2] == 99u8 && name[3] == 116u8
        && name[4] == 97u8 && name[5] == 110u8 && name[6] == 103u8 && name[7] == 108u8 && name[8]
        == 101u8 && name[9] == 115u8 {
        proof {
            assert(name@ =~= seq![114u8, 101u8, 99u8, 116u8, 97u8, 110u8, 103u8, 108u8, 101u8, 115u8]);
        }
        Some(ShapeKind::Rectangle)
    } else {
        proof {
            let lines = seq![108u8, 105u8, 110u8, 101u8, 115u8];
            let rects = seq![114u8, 101u8, 99u8, 116u8, 97u8, 110u8, 103u8, 108u8, 101u8, 115u8];
            if name@ == lines {
                assert(name@[0] == lines[0] && name@[1] == lines[1] && name@[2] == lines[2]
                    && name@[3] == lines[3] && name@[4] == lines[4]);
            }
            if name@ == rects {
                assert(name@[0] == rects[0] && name@[1] == rects[1] && name@[2] == rects[2]
                    && name@[3] == rects[3] && name@[4] == rects[4] && name@[5] == rects[5]
                    && name@[6] == rects[6] && name@[7] == rects[7] && name@[8] == rects[8]
                    && name@[9] == rects[9]);
            }
        }
        None
    }
}

/// Parses a comma-separated list of shape names ("lines", "rectangles"),
/// keeping their order; any other name is refused.
pub fn parse_shapes(list: &Vec<u8>) -> (r: Result<Vec<ShapeKind>, ConfigError>)
    ensures
        r matches Ok(v) ==> parse_names(list@, seq![], seq![]) == Some(v@),
        r is Err ==> r == Err::<Vec<ShapeKind>, ConfigError>(ConfigError::UnknownShape)
            && parse_names(list@, seq![], seq![]) is None,
{
    let mut tok: Vec<u8> = Vec::new();
    let mut acc: Vec<ShapeKind> = Vec::new();
    let mut i: usize = 0;
    proof {
        assert(list@.skip(0) =~= list@);
        assert(tok@ =~= seq![]);
        assert(acc@ =~= seq![]);
    }
    while i < list.len()
        invariant
            i <= list@.len(),
            parse_names(list@.skip(i as int), tok@, acc@) == parse_names(list@, seq![], seq![]),
        decreases list@.len() - i,
    {
        let b = list[i];
        proof {
            assert(list@.skip(i as int).drop_first() =~= list@.skip(i + 1));
        }
        if b == 44u8 {
            match name_to_kind(&tok) {
                Some(k) => {
                    acc.push(k);
                    tok = Vec::new();
                    proof {
                        assert(tok@ =~= seq![]);
                    }
                },
                None => {
                    return Err(ConfigError::UnknownShape);
                },
            }
        } else {
            tok.push(b);
        }
        i = i + 1;
    }
    proof {
        assert(list@.skip(i as int) =~= seq![]);
    }
    match name_to_kind(&tok) {
        Some(k) => {
            acc.push(k);
            Ok(acc)
        },
        None => Err(ConfigError::UnknownShape),
    }
}

impl Config {
    pub open spec fn valid(&self) -> bool {
        &&& self.shapes@.len() > 0
        &&& self.min_size < self.max_size
        &&& self.adapt_rate > 0
        &&& 0 < self.adapt_coeff_num < self.adapt_coeff_den
        &&& self.animation_interval > 0
    }

    /// The first rule a configuration breaks, in the order the fields are listed.
    pub open spec fn first_error(&self) -> Option<ConfigError> {
        if self.shapes@.len() == 0 {
            Some(ConfigError::NoShapes)
        } else if self.min_size >= self.max_size {
            Some(ConfigError::SizeRange)
        } else if self.adapt_rate == 0 {
            Some(ConfigError::AdaptRate)
        } else if !(0 < self.adapt_coeff_num < self.adapt_coeff_den) {
            Some(ConfigError::AdaptCoeff)
        } else if self.animation_interval == 0 {
            Some(ConfigError::AnimationInterval)
        } else {
            None
        }
    }

    /// Accepts a configuration the loop can run on, or names what is wrong with it.
    pub fn validate(&self) -> (r: Result<(), ConfigError>)
        ensures
            r is Ok <==> self.valid(),
            r matches Err(e) ==> self.first_error() == Some(e),
    {
        if self.shapes.len() == 0 {
            Err(ConfigError::NoShapes)
        } else if self.min_size >= self.max_size {
            Err(ConfigError::SizeRange)
        } else if self.adapt_rate == 0 {
            Err(ConfigError::AdaptRate)
        } else if !(0 < self.adapt_coeff_num && self.adapt_coeff_num < self.adapt_coeff_den) {
            Err(ConfigError::AdaptCoeff)
        } else if self.animation_interval == 0 {
            Err(ConfigError::AnimationInterval)
        } else {
            Ok(())
        }
    }
}

/// The mutable state of a run: the size range and the counters.
#[derive(Clone, Copy, Debug, PartialEq, Eq, Structural)]
pub struct Search {
    pub min: u32,
    pub max: u32,
    /// How many times the size range has shrunk.
    pub shrinks: u32,
    /// Iterations attempted so far.
    pub iteration: u64,
    /// Proposals committed so far.
    pub committed: u64,
}

/// What one iteration did, for the caller to report or save.
#[derive(Clone, Copy, Debug, PartialEq, Eq, Structural)]
pub struct StepReport {
    pub proposal: Proposal,
    pub accepted: bool,
    /// The number of a frame to save, when one is due.
    pub frame: Option<u64>,
    /// A progress percentage to show, when one is due.
    pub progress: Option<u64>,
}

impl Search {
    pub open spec fn wf(&self) -> bool {
        self.min < self.max && self.committed <= self.iteration
    }

    /// The state before the first iteration.
    pub fn new(cfg: &Config) -> (r: Search)
        requires
            cfg.valid(),
        ensures
            r.wf(),
            r == (Search {
                min: cfg.min_size,
                max: cfg.max_size,
                shrinks: 0,
                iteration: 0,
                committed: 0,
            }),
    {
        Search { min: cfg.min_size, max: cfg.max_size, shrinks: 0, iteration: 0, committed: 0 }
    }

    /// The state after the adaptive check of the current iteration.
    pub open spec fn adapted(self, cfg: &Config) -> Search {
        if cfg.adaptive && shrink_is_due(
            (self.iteration - self.committed) as u64,
            self.shrinks,
            cfg.adapt_rate,
        ) {
            Search {
                max: shrunk_max(self.max, self.min, cfg.adapt_coeff_num, cfg.adapt_coeff_den) as u32,
                shrinks: (self.shrinks + 1) as u32,
                ..self
            }
        } else {
            self
        }
    }

    /// Shrinks the size range when the rejection streak has passed the next
    /// threshold of the schedule. `max` never grows and stays above `min`.
    pub fn adapt(&mut self, cfg: &Config)
        requires
            old(self).wf(),
            cfg.valid(),
        ensures
            *final(self) == old(self).adapted(cfg),
            final(self).wf(),
            final(self).min == old(self).min,
            final(self).max <= old(self).max,
            final(self).min < final(self).max,
    {
        if cfg.adaptive && shrink_due(self.iteration - self.committed, self.shrinks, cfg.adapt_rate) {
            self.max = shrink_max(self.max, self.min, cfg.adapt_coeff_num, cfg.adapt_coeff_den);
            self.shrinks = self.shrinks + 1;
        }
    }

    /// Runs one iteration on a given proposal: scores it, applies the
    /// adaptive check, and commits it when it lowers the error over its footprint.
    pub fn apply(&mut self, target: &Raster, canvas: &mut Raster, cfg: &Config, p: &Proposal) -> (accepted: bool)
        requires
            old(self).wf(),
            old(self).iteration < u64::MAX,
            cfg.valid(),
            target.wf(),
            old(canvas).wf(),
            old(canvas).same_shape(target),
        ensures
            applied(*old(self), old(canvas), target, cfg, *p, *final(self), final(canvas), accepted),
    {
        let fp = rasterize(p.kind, p.x0, p.y0, p.x1, p.y1);
        let accepted = accept(target, canvas, &fp, p.color);
        self.adapt(cfg);
        if accepted {
            draw(canvas, &fp, p.color);
            self.committed = self.committed + 1;
        }
        self.iteration = self.iteration + 1;
        accepted
    }

    /// Whether the next proposal goes left of its anchor: in unbiased mode
    /// the direction alternates with the iteration's parity, starting leftward.
    pub open spec fn leftward(&self, cfg: &Config) -> bool {
        !cfg.biased && self.iteration % 2 == 0
    }

    /// What holds of every proposal the generator can make: the anchor is on
    /// the raster, the color from the palette, the kind an enabled one, and
    /// the second anchor lies at offsets drawn from [min, max) cells.
    pub open spec fn proposal_ok(
        &self,
        target: &Raster,
        palette: Seq<Rgb>,
        cfg: &Config,
        p: Proposal,
    ) -> bool {
        let lo = self.min as int * OFFSET_SCALE as int;
        let hi = self.max as int * OFFSET_SCALE as int;
        &&& p.x0 < target.width
        &&& p.y0 < target.height
        &&& palette.contains(p.color)
        &&& cfg.shapes@.contains(p.kind)
        &&& exists|ox: u64, oy: u64|
            lo <= ox < hi && lo <= oy < hi && (p.x1, p.y1) == #[trigger] second_anchor_spec(
                p.x0,
                p.y0,
                ox,
                oy,
                self.leftward(cfg),
            )
    }

    fn draw_offset(&self, rng: &mut StdRng) -> (o: u64)
        requires
            self.wf(),
        ensures
            self.min as int * OFFSET_SCALE as int <= o < self.max as int * OFFSET_SCALE as int,
    {
        let lo = (self.min as u64) * OFFSET_SCALE;
        let hi = (self.max as u64) * OFFSET_SCALE;
        lo + draw_below(rng, hi - lo)
    }

    /// Draws a random proposal: anchor, color, vertical then horizontal
    /// offset, and shape kind, in that order.
    pub fn propose(&self, target: &Raster, palette: &Vec<Rgb>, cfg: &Config, rng: &mut StdRng) -> (p: Proposal)
        requires
            self.wf(),
            cfg.valid(),
            target.width > 0,
            target.height > 0,
            palette@.len() > 0,
        ensures
            self.proposal_ok(target, palette@, cfg, p),
    {
        let x0 = draw_below(rng, target.width as u64) as u32;
        let y0 = draw_below(rng, target.height as u64) as u32;
        let color = palette[draw_below(rng, palette.len() as u64) as usize];
        let oy = self.draw_offset(rng);
        let ox = self.draw_offset(rng);
        let leftward = !cfg.biased && self.iteration % 2 == 0;
        let (x1, y1) = second_anchor(x0, y0, ox, oy, leftward);
        let kind = cfg.shapes[draw_below(rng, cfg.shapes.len() as u64) as usize];
        let p = Proposal { kind, x0, y0, x1, y1, color };
        proof {
            assert(exists|i: int| 0 <= i < palette@.len() && palette@[i] == color);
            assert(exists|i: int| 0 <= i < cfg.shapes@.len() && cfg.shapes@[i] == kind);
            assert((p.x1, p.y1) == second_anchor_spec(p.x0, p.y0, ox, oy, self.leftward(cfg)));
        }
        p
    }

    /// One full iteration: draws a proposal, then applies it. Reports a
    /// frame number each time the committed count reaches a multiple of the
    /// animation interval, and a progress percentage at every hundredth of
    /// the run unless quiet.
    pub fn step(
        &mut self,
        target: &Raster,
        canvas: &mut Raster,
        palette: &Vec<Rgb>,
        cfg: &Config,
        rng: &mut StdRng,
    ) -> (r: StepReport)
        requires
            old(self).wf(),
            old(self).iteration < u64::MAX,
            cfg.valid(),
            target.wf(),
            target.width > 0,
            target.height > 0,
            palette@.len() > 0,
            old(canvas).wf(),
            old(canvas).same_shape(target),
        ensures
            old(self).proposal_ok(target, palette@, cfg, r.proposal),
            applied(
                *old(self),
                old(canvas),
                target,
                cfg,
                r.proposal,
                *final(self),
                final(canvas),
                r.accepted,
            ),
            r.frame == frame_due(cfg, r.accepted, final(self).committed),
            r.progress == progress_due(cfg, old(self).iteration),
    {
        let i = self.iteration;
        let proposal = self.propose(target, palette, cfg, rng);
        let accepted = self.apply(target, canvas, cfg, &proposal);
        let frame = if cfg.animate && accepted && self.committed % cfg.animation_interval == 0 {
            Some(self.committed / cfg.animation_interval)
        } else {
            None
        };
        let progress = if cfg.quiet {
            None
        } else {
            let prog = if cfg.iterations / 100 == 0 { 1 } else { cfg.iterations / 100 };
            if i % prog == 0 {
                Some(i / prog)
            } else {
                None
            }
        };
        StepReport { proposal, accepted, frame, progress }
    }
}

/// One iteration on proposal `p` took state `s0` and canvas `c0` to `s1`
/// and `c1`, with decision `accepted`.
pub open spec fn applied(
    s0: Search,
    c0: &Raster,
    target: &Raster,
    cfg: &Config,
    p: Proposal,
    s1: Search,
    c1: &Raster,
    accepted: bool,
) -> bool {
    let fp = footprint(p.kind, p.x0, p.y0, p.x1, p.y1);
    &&& accepted == accepts(target, c0, fp, p.color)
    &&& s1.wf()
    &&& s1.min == s0.adapted(cfg).min
    &&& s1.max == s0.adapted(cfg).max
    &&& s1.shrinks == s0.adapted(cfg).shrinks
    &&& s1.iteration == s0.iteration + 1
    &&& s1.committed == s0.committed + if accepted { 1int } else { 0 }
    &&& c1.wf()
    &&& c1.same_shape(target)
    &&& forall|x: int, y: int|
        #![trigger c1.at(x, y)]
        c1.contains(x, y) ==> c1.at(x, y) == if accepted && covers(fp, x, y) {
            p.color
        } else {
            c0.at(x, y)
        }
}

/// With adaptive mode on or off, an iteration's size check keeps `min`,
/// never raises `max`, and never lets `max` reach `min`: over a run, `max`
/// only decreases and stays above `min`.
pub proof fn lemma_adapted_max_monotone(s: Search, cfg: &Config)
    requires
        s.wf(),
        cfg.valid(),
    ensures
        s.adapted(cfg).min == s.min,
        s.adapted(cfg).max <= s.max,
        s.adapted(cfg).min < s.adapted(cfg).max,
        s.adapted(cfg).wf(),
{
    lemma_shrunk_max_bounds(s.max, s.min, cfg.adapt_coeff_num, cfg.adapt_coeff_den);
}

/// The second anchor of any proposal lies within the current size range of
/// the first: at most `max` cells away along x, and from 0 to `max` cells
/// below along y. Since `max` never grows, later shapes are no larger.
pub proof fn lemma_proposal_within_size(
    s: Search,
    target: &Raster,
    palette: Seq<Rgb>,
    cfg: &Config,
    p: Proposal,
)
    requires
        s.wf(),
        s.proposal_ok(target, palette, cfg, p),
    ensures
        abs_diff(p.x1 as int, p.x0 as int) <= s.max,
        p.y0 <= p.y1 <= p.y0 + s.max,
{
    let sc = OFFSET_SCALE as int;
    let m = s.max as int;
    let (ox, oy) = choose|ox: u64, oy: u64|
        s.min as int * sc <= ox < m * sc && s.min as int * sc <= oy < m * sc && (p.x1, p.y1)
            == #[trigger] second_anchor_spec(p.x0, p.y0, ox, oy, s.leftward(cfg));
    let x0 = p.x0 as int;
    let y0 = p.y0 as int;
    vstd::arithmetic::div_mod::lemma_div_is_ordered(oy as int, m * sc, sc);
    vstd::arithmetic::div_mod::lemma_div_multiples_vanish(m, sc);
    assert(m * sc == sc * m) by (nonlinear_arith);
    vstd::arithmetic::div_mod::lemma_div_pos_is_pos(oy as int, sc);
    vstd::arithmetic::div_mod::lemma_div_is_ordered(ox as int, m * sc, sc);
    vstd::arithmetic::div_mod::lemma_div_pos_is_pos(ox as int, sc);
    if s.leftward(cfg) {
        if ox as int > x0 * sc {
            assert(x0 < m) by (nonlinear_arith)
                requires
                    x0 * sc < ox,
                    ox < m * sc,
                    sc > 0,
            ;
            assert(x0 * oy as int <= ox as int * m) by (nonlinear_arith)
                requires
                    0 <= x0,
                    0 <= oy,
                    x0 * sc < ox,
                    oy < m * sc,
                    sc > 0,
            ;
            vstd::arithmetic::div_mod::lemma_div_is_ordered(x0 * oy as int, ox as int * m, ox as int);
            assert(ox as int * m == m * ox as int) by (nonlinear_arith);
            vstd::arithmetic::div_mod::lemma_div_pos_is_pos(x0 * oy as int, ox as int);
            assert((ox as int) * m / (ox as int) == m) by {
                vstd::arithmetic::div_mod::lemma_div_multiples_vanish(m, ox as int);
            }
        } else {
            let d = x0 * sc - ox as int;
            vstd::arithmetic::div_mod::lemma_fundamental_div_mod(d, sc);
            vstd::arithmetic::div_mod::lemma_mod_pos_bound(d, sc);
            let q = d / sc;
            assert(x0 - m <= q <= x0) by (nonlinear_arith)
                requires
                    d == sc * q + d % sc,
                    0 <= d % sc < sc,
                    d == x0 * sc - ox,
                    0 <= ox < m * sc,
                    sc > 0,
            ;
        }
    }
}

/// Two rasters of one shape that agree on every cell hold the same buffer.
proof fn lemma_same_cells(a: &Raster, b: &Raster)
    requires
        a.wf(),
        b.wf(),
        a.same_shape(b),
        forall|x: int, y: int| #![trigger a.at(x, y)] a.contains(x, y) ==> a.at(x, y) == b.at(x, y),
    ensures
        a.pixels@ == b.pixels@,
{
    assert forall|i: int| 0 <= i < a.pixels@.len() implies a.pixels@[i] == b.pixels@[i] by {
        let w = a.width as int;
        let h = a.height as int;
        assert(w > 0) by (nonlinear_arith)
            requires
                0 <= i < w * h,
                w >= 0,
                h >= 0,
        ;
        let x = i % w;
        let y = i / w;
        vstd::arithmetic::div_mod::lemma_fundamental_div_mod(i, w);
        vstd::arithmetic::div_mod::lemma_mod_pos_bound(i, w);
        assert(0 <= y < h) by (nonlinear_arith)
            requires
                i == w * y + x,
                0 <= x < w,
                0 <= i < w * h,
        ;
        assert(y * w == w * y) by (nonlinear_arith);
        assert(a.index_of(x, y) == i);
        assert(a.at(x, y) == b.at(x, y));
    }
    assert(a.pixels@ =~= b.pixels@);
}

/// One iteration is a function of its inputs: from equal states, canvases
/// and proposals it reaches equal states and canvases. A run is therefore
/// fixed by the proposals drawn, so two runs fed the same random stream agree.
pub proof fn lemma_iteration_deterministic(
    s0: Search,
    c0: &Raster,
    target: &Raster,
    cfg: &Config,
    p: Proposal,
    s1: Search,
    c1: &Raster,
    a1: bool,
    s2: Search,
    c2: &Raster,
    a2: bool,
)
    requires
        applied(s0, c0, target, cfg, p, s1, c1, a1),
        applied(s0, c0, target, cfg, p, s2, c2, a2),
    ensures
        a1 == a2,
        s1 == s2,
        c1.width == c2.width && c1.height == c2.height,
        c1.pixels@ == c2.pixels@,
{
    assert forall|x: int, y: int| #![trigger c1.at(x, y)] c1.contains(x, y) implies c1.at(x, y)
        == c2.at(x, y) by {
        assert(c2.contains(x, y));
    }
    lemma_same_cells(c1, c2);
}

/// Every cell of `canvas` is black or a color that occurs in `target`.
pub open spec fn colors_from(canvas: &Raster, target: &Raster) -> bool {
    forall|x: int, y: int|
        #![trigger canvas.at(x, y)]
        canvas.contains(x, y) ==> canvas.at(x, y) == black() || target.pixels@.contains(
            canvas.at(x, y),
        )
}

/// The state before the first iteration of a run under `cfg`.
pub open spec fn initial_search(cfg: &Config) -> Search {
    Search { min: cfg.min_size, max: cfg.max_size, shrinks: 0, iteration: 0, committed: 0 }
}

/// A black canvas of the target's shape.
pub open spec fn blank_of(c: &Raster, target: &Raster) -> bool {
    &&& c.wf()
    &&& c.same_shape(target)
    &&& forall|i: int| 0 <= i < c.pixels@.len() ==> #[trigger] c.pixels@[i] == black()
}

/// State `s` and canvas `c` are reached after `n` iterations of a run on
/// `target` with `palette` under `cfg`: from the initial state and a black
/// canvas, each iteration applies some proposal the generator can make from
/// the state it starts in.
pub open spec fn reached(
    target: &Raster,
    palette: Seq<Rgb>,
    cfg: &Config,
    n: nat,
    s: Search,
    c: &Raster,
) -> bool
    decreases n,
{
    if n == 0 {
        s == initial_search(cfg) && blank_of(c, target)
    } else {
        exists|s0: Search, c0: Raster, p: Proposal, a: bool|
            #[trigger] applied(s0, &c0, target, cfg, p, s, c, a) && reached(
                target,
                palette,
                cfg,
                (n - 1) as nat,
                s0,
                &c0,
            ) && s0.proposal_ok(target, palette, cfg, p)
    }
}

/// Runs the whole search on `target`, returning the final canvas and state.
/// On a non-empty target the result is reached from the initial state and a
/// black canvas by exactly `cfg.iterations` iterations over the target's
/// palette; on an empty one the canvas stays black.
pub fn run(target: &Raster, cfg: &Config, rng: &mut StdRng) -> (r: (Raster, Search))
    requires
        target.wf(),
        cfg.valid(),
    ensures
        r.0.wf(),
        r.0.same_shape(target),
        colors_from(&r.0, target),
        cfg.iterations == 0 ==> blank_of(&r.0, target),
        target.pixels@.len() == 0 ==> blank_of(&r.0, target),
        target.pixels@.len() > 0 ==> r.1.iteration == cfg.iterations && exists|pal: Seq<Rgb>|
            palette_of(target, cfg.uniform_palette, pal) && #[trigger] reached(
                target,
                pal,
                cfg,
                cfg.iterations as nat,
                r.1,
                &r.0,
            ),
{
    let palette = build_palette(target, cfg.uniform_palette);
    // Reading the buffer's length bounds width * height by usize::MAX.
    let _cells = target.pixels.len();
    let mut canvas = Raster::blank(target.width, target.height);
    let mut search = Search::new(cfg);
    proof {
        assert forall|x: int, y: int|
            #![trigger canvas.at(x, y)]
            canvas.contains(x, y) implies canvas.at(x, y) == black() by {
            canvas.lemma_index_in_range(x, y);
        }
        if target.pixels@.len() > 0 {
            assert(target.pixels@.contains(target.pixels@[0]));
            if cfg.uniform_palette {
                assert(palette@.contains(target.pixels@[0]));
            }
        }
    }
    if target.width == 0 || target.height == 0 || palette.len() == 0 {
        proof {
            let (w, h) = (target.width as int, target.height as int);
            assert((w == 0 || h == 0) ==> w * h == 0) by (nonlinear_arith);
            if target.pixels@.len() > 0 {
                assert(palette@.len() > 0);
            }
        }
        return (canvas, search);
    }
    while search.iteration < cfg.iterations
        invariant
            target.wf(),
            cfg.valid(),
            target.width > 0,
            target.height > 0,
            palette@.len() > 0,
            palette_of(target, cfg.uniform_palette, palette@),
            forall|c: Rgb| palette@.contains(c) ==> target.pixels@.contains(c),
            search.wf(),
            search.iteration <= cfg.iterations,
            canvas.wf(),
            canvas.same_shape(target),
            colors_from(&canvas, target),
            reached(target, palette@, cfg, search.iteration as nat, search, &canvas),
        decreases cfg.iterations - search.iteration,
    {
        let ghost prev = canvas;
        let ghost prev_s = search;
        let report = search.step(target, &mut canvas, &palette, cfg, rng);
        proof {
            assert forall|x: int, y: int|
                #![trigger canvas.at(x, y)]
                canvas.contains(x, y) implies canvas.at(x, y) == black()
                    || target.pixels@.contains(canvas.at(x, y)) by {
                assert(prev.contains(x, y));
                assert(prev.at(x, y) == black() || target.pixels@.contains(prev.at(x, y)));
            }
            assert(applied(prev_s, &prev, target, cfg, report.proposal, search, &canvas, report.accepted));
            assert(reached(target, palette@, cfg, search.iteration as nat, search, &canvas));
        }
    }
    proof {
        assert(search.iteration == cfg.iterations);
        assert(palette_of(target, cfg.uniform_palette, palette@) && reached(
            target,
            palette@,
            cfg,
            cfg.iterations as nat,
            search,
            &canvas,
        ));
    }
    let ghost final_canvas = canvas;
    let r = (canvas, search);
    proof {
        assert(r.0 == final_canvas);
        assert(reached(target, palette@, cfg, cfg.iterations as nat, r.1, &r.0));
    }
    r
}

/// The frame to save after an iteration, if any.
pub open spec fn frame_due(cfg: &Config, accepted: bool, committed: u64) -> Option<u64> {
    if cfg.animate && accepted && committed % cfg.animation_interval == 0 {
        Some((committed / cfg.animation_interval) as u64)
    } else {
        None
    }
}

/// The progress percentage to show at iteration `i`, if any.
pub open spec fn progress_due(cfg: &Config, i: u64) -> Option<u64> {
    let prog = if cfg.iterations / 100 == 0 { 1 } else { cfg.iterations / 100 };
    if !cfg.quiet && i % prog == 0 {
        Some((i / prog) as u64)
    } else {
        None
    }
}

} // verus!
