//! The 16-step delivery pipeline (17 stages from INIT to DONE) and its path modes.
use crate::text::{str_eq, to_chars, starts_with};
use vstd::prelude::*;

verus! {

/// The stages of a run, in canonical order.
#[derive(Debug, Clone, Copy, PartialEq, Eq, Structural)]
pub enum Stage {
    Init,
    IntentGate,
    AnalyseProduct,
    ClarifyProduct,
    AnalyseTech,
    ClarifyTech,
    ArchitectBackend,
    ClarifyArchBackend,
    ArchitectFrontend,
    ClarifyArchFrontend,
    Implement,
    BuildVerify,
    VisualReview,
    E2eVerify,
    Test,
    Archive,
    Done,
}

/// The number of stages.
pub const STAGE_COUNT: usize = 17;

/// The route a run takes through the stages.
#[derive(Debug, Clone, Copy, PartialEq, Eq, Structural)]
pub enum PathMode {
    Full,
    Lite,
    Single,
    Tooling,
}

/// The position of a stage in the canonical order.
pub open spec fn stage_index(s: Stage) -> int {
    match s {
        Stage::Init => 0,
        Stage::IntentGate => 1,
        Stage::AnalyseProduct => 2,
        Stage::ClarifyProduct => 3,
        Stage::AnalyseTech => 4,
        Stage::ClarifyTech => 5,
        Stage::ArchitectBackend => 6,
        Stage::ClarifyArchBackend => 7,
        Stage::ArchitectFrontend => 8,
        Stage::ClarifyArchFrontend => 9,
        Stage::Implement => 10,
        Stage::BuildVerify => 11,
        Stage::VisualReview => 12,
        Stage::E2eVerify => 13,
        Stage::Test => 14,
        Stage::Archive => 15,
        Stage::Done => 16,
    }
}

/// The stage at a position of the canonical order (`0 <= i < 17`).
pub open spec fn stage_at(i: int) -> Stage {
    if i <= 0 {
        Stage::Init
    } else if i == 1 {
        Stage::IntentGate
    } else if i == 2 {
        Stage::AnalyseProduct
    } else if i == 3 {
        Stage::ClarifyProduct
    } else if i == 4 {
        Stage::AnalyseTech
    } else if i == 5 {
        Stage::ClarifyTech
    } else if i == 6 {
        Stage::ArchitectBackend
    } else if i == 7 {
        Stage::ClarifyArchBackend
    } else if i == 8 {
        Stage::ArchitectFrontend
    } else if i == 9 {
        Stage::ClarifyArchFrontend
    } else if i == 10 {
        Stage::Implement
    } else if i == 11 {
        Stage::BuildVerify
    } else if i == 12 {
        Stage::VisualReview
    } else if i == 13 {
        Stage::E2eVerify
    } else if i == 14 {
        Stage::Test
    } else if i == 15 {
        Stage::Archive
    } else {
        Stage::Done
    }
}

/// The name a stage has in STATE.yaml and on the command line.
pub open spec fn stage_name(s: Stage) -> Seq<char> {
    match s {
        Stage::Init => "INIT"@,
        Stage::IntentGate => "INTENT_GATE"@,
        Stage::AnalyseProduct => "ANALYSE_PRODUCT"@,
        Stage::ClarifyProduct => "CLARIFY_PRODUCT"@,
        Stage::AnalyseTech => "ANALYSE_TECH"@,
        Stage::ClarifyTech => "CLARIFY_TECH"@,
        Stage::ArchitectBackend => "ARCHITECT_BACKEND"@,
        Stage::ClarifyArchBackend => "CLARIFY_ARCH_BACKEND"@,
        Stage::ArchitectFrontend => "ARCHITECT_FRONTEND"@,
        Stage::ClarifyArchFrontend => "CLARIFY_ARCH_FRONTEND"@,
        Stage::Implement => "IMPLEMENT"@,
        Stage::BuildVerify => "BUILD_VERIFY"@,
        Stage::VisualReview => "VISUAL_REVIEW"@,
        Stage::E2eVerify => "E2E_VERIFY"@,
        Stage::Test => "TEST"@,
        Stage::Archive => "ARCHIVE"@,
        Stage::Done => "DONE"@,
    }
}

/// The first stage at or after position `i` whose name is `n`.
pub open spec fn parse_stage_from(n: Seq<char>, i: int) -> Option<Stage>
    decreases 17 - i,
{
    if i >= 17 {
        None
    } else if n == stage_name(stage_at(i)) {
        Some(stage_at(i))
    } else {
        parse_stage_from(n, i + 1)
    }
}

/// The stage named `n`, if any.
pub open spec fn parse_stage(n: Seq<char>) -> Option<Stage> {
    parse_stage_from(n, 0)
}

/// The name a path mode has in STATE.yaml and on the command line.
pub open spec fn mode_name(m: PathMode) -> Seq<char> {
    match m {
        PathMode::Full => "full"@,
        PathMode::Lite => "lite"@,
        PathMode::Single => "single"@,
        PathMode::Tooling => "tooling"@,
    }
}

/// The path mode named `n`, if any.
pub open spec fn parse_mode(n: Seq<char>) -> Option<PathMode> {
    if n == mode_name(PathMode::Full) {
        Some(PathMode::Full)
    } else if n == mode_name(PathMode::Lite) {
        Some(PathMode::Lite)
    } else if n == mode_name(PathMode::Single) {
        Some(PathMode::Single)
    } else if n == mode_name(PathMode::Tooling) {
        Some(PathMode::Tooling)
    } else {
        None
    }
}

/// Whether a stage is on the route of a path mode.
///
/// `lite` drops the frontend architecture and the visual review; `tooling` also drops the
/// end-to-end verification; `single` keeps only the core delivery stages.
pub open spec fn in_mode(s: Stage, m: PathMode) -> bool {
    match m {
        PathMode::Full => true,
        PathMode::Lite => !(s == Stage::ArchitectFrontend || s == Stage::ClarifyArchFrontend || s
            == Stage::VisualReview),
        PathMode::Tooling => !(s == Stage::ArchitectFrontend || s == Stage::ClarifyArchFrontend
            || s == Stage::VisualReview || s == Stage::E2eVerify),
        PathMode::Single => s == Stage::Init || s == Stage::IntentGate || s == Stage::Implement
            || s == Stage::BuildVerify || s == Stage::Test || s == Stage::Archive || s
            == Stage::Done,
    }
}

/// The stages of the route of `m` among the first `n` of the canonical order, in order.
pub open spec fn active_upto(n: int, m: PathMode) -> Seq<Stage>
    decreases n,
{
    if n <= 0 {
        seq![]
    } else if in_mode(stage_at(n - 1), m) {
        active_upto(n - 1, m).push(stage_at(n - 1))
    } else {
        active_upto(n - 1, m)
    }
}

/// The stages of the route of `m`, in order.
pub open spec fn active_stages(m: PathMode) -> Seq<Stage> {
    active_upto(17, m)
}

/// The first stage of the route of `m` at or after position `i`.
pub open spec fn next_from(i: int, m: PathMode) -> Option<Stage>
    decreases 17 - i,
{
    if i >= 17 {
        None
    } else if in_mode(stage_at(i), m) {
        Some(stage_at(i))
    } else {
        next_from(i + 1, m)
    }
}

/// The stage that follows `current` on the route of `path_mode`: the first stage of the route
/// after `current`'s position in the canonical order. `None` at the end of the route, or when
/// either name is unknown.
pub open spec fn next_stage_spec(current: Seq<char>, path_mode: Seq<char>) -> Option<Stage> {
    match (parse_stage(current), parse_mode(path_mode)) {
        (Some(s), Some(m)) => next_from(stage_index(s) + 1, m),
        _ => None,
    }
}

/// The artifact file a stage produces, verified when the run leaves that stage.
pub open spec fn artifact_of(s: Stage) -> Option<Seq<char>> {
    match s {
        Stage::AnalyseProduct => Some("01-product.md"@),
        Stage::AnalyseTech => Some("02-tech.md"@),
        Stage::ArchitectBackend => Some("03-arch.md"@),
        Stage::ArchitectFrontend => Some("04-arch-fe.md"@),
        Stage::Implement => Some("05-implement.md"@),
        Stage::BuildVerify => Some("06-build.md"@),
        Stage::VisualReview => Some("07-visual.md"@),
        Stage::E2eVerify => Some("08-e2e.md"@),
        Stage::Test => Some("09-test.md"@),
        Stage::Archive => Some("10-archive.md"@),
        _ => None,
    }
}

/// The artifact of the stage named `n`, if the name is a producing stage.
pub open spec fn artifact_for(n: Seq<char>) -> Option<Seq<char>> {
    match parse_stage(n) {
        Some(s) => artifact_of(s),
        None => None,
    }
}

/// Whether a stage name is a CLARIFY pause stage (its name starts with `CLARIFY`).
pub open spec fn is_clarify_name(n: Seq<char>) -> bool {
    "CLARIFY"@.is_prefix_of(n)
}

/// The verify stages that may be retried.
pub open spec fn is_retry_stage(n: Seq<char>) -> bool {
    n == stage_name(Stage::BuildVerify) || n == stage_name(Stage::E2eVerify)
}

/// The view of an optional string slice.
pub open spec fn opt_view(o: Option<&str>) -> Option<Seq<char>> {
    match o {
        Some(s) => Some(s@),
        None => None,
    }
}

/// The name of an optional stage.
pub open spec fn opt_stage_name(o: Option<Stage>) -> Option<Seq<char>> {
    match o {
        Some(s) => Some(stage_name(s)),
        None => None,
    }
}

/// The views of a sequence of string slices.
pub open spec fn str_views(v: Seq<&str>) -> Seq<Seq<char>> {
    v.map_values(|x: &str| x@)
}

/// The names of a sequence of stages.
pub open spec fn stage_names(v: Seq<Stage>) -> Seq<Seq<char>> {
    v.map_values(|s: Stage| stage_name(s))
}

/// The most failures a retryable stage may have before the run is blocked.
pub const RETRY_CAP: u32 = 5;

impl Stage {
    pub fn name(self) -> (r: &'static str)
        ensures
            r@ == stage_name(self),
    {
        match self {
            Stage::Init => "INIT",
            Stage::IntentGate => "INTENT_GATE",
            Stage::AnalyseProduct => "ANALYSE_PRODUCT",
            Stage::ClarifyProduct => "CLARIFY_PRODUCT",
            Stage::AnalyseTech => "ANALYSE_TECH",
            Stage::ClarifyTech => "CLARIFY_TECH",
            Stage::ArchitectBackend => "ARCHITECT_BACKEND",
            Stage::ClarifyArchBackend => "CLARIFY_ARCH_BACKEND",
            Stage::ArchitectFrontend => "ARCHITECT_FRONTEND",
            Stage::ClarifyArchFrontend => "CLARIFY_ARCH_FRONTEND",
            Stage::Implement => "IMPLEMENT",
            Stage::BuildVerify => "BUILD_VERIFY",
            Stage::VisualReview => "VISUAL_REVIEW",
            Stage::E2eVerify => "E2E_VERIFY",
            Stage::Test => "TEST",
            Stage::Archive => "ARCHIVE",
            Stage::Done => "DONE",
        }
    }

    pub fn index(self) -> (r: usize)
        ensures
            r == stage_index(self),
    {
        match self {
            Stage::Init => 0,
            Stage::IntentGate => 1,
            Stage::AnalyseProduct => 2,
            Stage::ClarifyProduct => 3,
            Stage::AnalyseTech => 4,
            Stage::ClarifyTech => 5,
            Stage::ArchitectBackend => 6,
            Stage::ClarifyArchBackend => 7,
            Stage::ArchitectFrontend => 8,
            Stage::ClarifyArchFrontend => 9,
            Stage::Implement => 10,
            Stage::BuildVerify => 11,
            Stage::VisualReview => 12,
            Stage::E2eVerify => 13,
            Stage::Test => 14,
            Stage::Archive => 15,
            Stage::Done => 16,
        }
    }

    pub fn at(i: usize) -> (r: Stage)
        requires
            i < 17,
        ensures
            r == stage_at(i as int),
    {
        if i == 0 {
            Stage::Init
        } else if i == 1 {
            Stage::IntentGate
        } else if i == 2 {
            Stage::AnalyseProduct
        } else if i == 3 {
            Stage::ClarifyProduct
        } else if i == 4 {
            Stage::AnalyseTech
        } else if i == 5 {
            Stage::ClarifyTech
        } else if i == 6 {
            Stage::ArchitectBackend
        } else if i == 7 {
            Stage::ClarifyArchBackend
        } else if i == 8 {
            Stage::ArchitectFrontend
        } else if i == 9 {
            Stage::ClarifyArchFrontend
        } else if i == 10 {
            Stage::Implement
        } else if i == 11 {
            Stage::BuildVerify
        } else if i == 12 {
            Stage::VisualReview
        } else if i == 13 {
            Stage::E2eVerify
        } else if i == 14 {
            Stage::Test
        } else if i == 15 {
            Stage::Archive
        } else {
            Stage::Done
        }
    }

    /// The stage named `name`, if any.
    pub fn parse(name: &str) -> (r: Option<Stage>)
        ensures
            r == parse_stage(name@),
    {
        let mut i: usize = 0;
        while i < 17
            invariant
                i <= 17,
                parse_stage(name@) == parse_stage_from(name@, i as int),
            decreases 17 - i,
        {
            let s = Stage::at(i);
            if str_eq(name, s.name()) {
                return Some(s);
            }
            i = i + 1;
        }
        None
    }

    /// Whether this stage is on the route of `m`.
    pub fn in_mode(self, m: PathMode) -> (r: bool)
        ensures
            r == in_mode(self, m),
    {
        match m {
            PathMode::Full => true,
            PathMode::Lite => !(self == Stage::ArchitectFrontend || self
                == Stage::ClarifyArchFrontend || self == Stage::VisualReview),
            PathMode::Tooling => !(self == Stage::ArchitectFrontend || self
                == Stage::ClarifyArchFrontend || self == Stage::VisualReview || self
                == Stage::E2eVerify),
            PathMode::Single => self == Stage::Init || self == Stage::IntentGate || self
                == Stage::Implement || self == Stage::BuildVerify || self == Stage::Test || self
                == Stage::Archive || self == Stage::Done,
        }
    }

    /// The artifact this stage produces, if it is a producing stage.
    pub fn artifact(self) -> (r: Option<&'static str>)
        ensures
            opt_view(r) == artifact_of(self),
    {
        match self {
            Stage::AnalyseProduct => Some("01-product.md"),
            Stage::AnalyseTech => Some("02-tech.md"),
            Stage::ArchitectBackend => Some("03-arch.md"),
            Stage::ArchitectFrontend => Some("04-arch-fe.md"),
            Stage::Implement => Some("05-implement.md"),
            Stage::BuildVerify => Some("06-build.md"),
            Stage::VisualReview => Some("07-visual.md"),
            Stage::E2eVerify => Some("08-e2e.md"),
            Stage::Test => Some("09-test.md"),
            Stage::Archive => Some("10-archive.md"),
            _ => None,
        }
    }
}

impl PathMode {
    pub fn name(self) -> (r: &'static str)
        ensures
            r@ == mode_name(self),
    {
        match self {
            PathMode::Full => "full",
            PathMode::Lite => "lite",
            PathMode::Single => "single",
            PathMode::Tooling => "tooling",
        }
    }

    /// The path mode named `name`, if any.
    pub fn parse(name: &str) -> (r: Option<PathMode>)
        ensures
            r == parse_mode(name@),
    {
        if str_eq(name, "full") {
            Some(PathMode::Full)
        } else if str_eq(name, "lite") {
            Some(PathMode::Lite)
        } else if str_eq(name, "single") {
            Some(PathMode::Single)
        } else if str_eq(name, "tooling") {
            Some(PathMode::Tooling)
        } else {
            None
        }
    }
}

/// Artifact a stage produces (verified on advance out of that stage). None for others.
pub fn stage_artifact(stage: &str) -> (r: Option<&'static str>)
    ensures
        opt_view(r) == artifact_for(stage@),
{
    match Stage::parse(stage) {
        Some(s) => s.artifact(),
        None => None,
    }
}

/// Whether a stage name is a CLARIFY pause.
pub fn is_clarify(stage: &str) -> (r: bool)
    ensures
        r == is_clarify_name(stage@),
{
    let s = to_chars(stage);
    let p = to_chars("CLARIFY");
    starts_with(&s, &p)
}

pub fn is_valid_stage(stage: &str) -> (r: bool)
    ensures
        r == parse_stage(stage@).is_some(),
{
    Stage::parse(stage).is_some()
}

pub fn is_valid_path_mode(mode: &str) -> (r: bool)
    ensures
        r == parse_mode(mode@).is_some(),
{
    PathMode::parse(mode).is_some()
}

/// Whether a stage name is one of the retryable verify stages.
pub fn is_retry_stage_name(stage: &str) -> (r: bool)
    ensures
        r == is_retry_stage(stage@),
{
    str_eq(stage, "BUILD_VERIFY") || str_eq(stage, "E2E_VERIFY")
}

/// The names of the stages on the route of `m`, in order.
pub fn mode_stages(m: PathMode) -> (r: Vec<&'static str>)
    ensures
        str_views(r@) == stage_names(active_stages(m)),
{
    let mut v: Vec<&'static str> = Vec::new();
    let mut i: usize = 0;
    while i < 17
        invariant
            i <= 17,
            str_views(v@) == stage_names(active_upto(i as int, m)),
        decreases 17 - i,
    {
        let s = Stage::at(i);
        let ghost before = v@;
        if s.in_mode(m) {
            v.push(s.name());
            assert(str_views(v@) =~= str_views(before).push(stage_name(s)));
            assert(stage_names(active_upto(i + 1, m)) =~= stage_names(active_upto(i as int, m)).push(
                stage_name(s),
            ));
        }
        i = i + 1;
    }
    v
}

/// The ordered stages active for a path mode. Returns None for an unknown mode (no silent
/// fallback).
pub fn stages_for(path_mode: &str) -> (r: Option<Vec<&'static str>>)
    ensures
        match parse_mode(path_mode@) {
            None => r is None,
            Some(m) => r matches Some(v) && str_views(v@) == stage_names(active_stages(m)),
        },
{
    match PathMode::parse(path_mode) {
        Some(m) => Some(mode_stages(m)),
        None => None,
    }
}

/// The next active stage after `current` for the path mode, or None at the end.
pub fn next_stage(current: &str, path_mode: &str) -> (r: Option<&'static str>)
    ensures
        opt_view(r) == opt_stage_name(next_stage_spec(current@, path_mode@)),
{
    let m = match PathMode::parse(path_mode) {
        Some(m) => m,
        None => return None,
    };
    let s = match Stage::parse(current) {
        Some(s) => s,
        None => return None,
    };
    let mut i: usize = s.index() + 1;
    while i < 17
        invariant
            1 <= i <= 17,
            parse_mode(path_mode@) == Some(m),
            parse_stage(current@) == Some(s),
            next_from(stage_index(s) + 1, m) == next_from(i as int, m),
        decreases 17 - i,
    {
        let t = Stage::at(i);
        if t.in_mode(m) {
            assert(next_from(i as int, m) == Some(t));
            assert(next_stage_spec(current@, path_mode@) == next_from(stage_index(s) + 1, m));
            return Some(t.name());
        }
        i = i + 1;
    }
    None
}

/// The characters of every stage and mode name.
pub proof fn reveal_stage_names()
    ensures
        "INIT"@ == seq!['I', 'N', 'I', 'T'],
        "INTENT_GATE"@ == seq!['I', 'N', 'T', 'E', 'N', 'T', '_', 'G', 'A', 'T', 'E'],
        "ANALYSE_PRODUCT"@ == seq!['A', 'N', 'A', 'L', 'Y', 'S', 'E', '_', 'P', 'R', 'O', 'D', 'U', 'C', 'T'],
        "CLARIFY_PRODUCT"@ == seq!['C', 'L', 'A', 'R', 'I', 'F', 'Y', '_', 'P', 'R', 'O', 'D', 'U', 'C', 'T'],
        "ANALYSE_TECH"@ == seq!['A', 'N', 'A', 'L', 'Y', 'S', 'E', '_', 'T', 'E', 'C', 'H'],
        "CLARIFY_TECH"@ == seq!['C', 'L', 'A', 'R', 'I', 'F', 'Y', '_', 'T', 'E', 'C', 'H'],
        "ARCHITECT_BACKEND"@ == seq!['A', 'R', 'C', 'H', 'I', 'T', 'E', 'C', 'T', '_', 'B', 'A', 'C', 'K', 'E', 'N', 'D'],
        "CLARIFY_ARCH_BACKEND"@ == seq!['C', 'L', 'A', 'R', 'I', 'F', 'Y', '_', 'A', 'R', 'C', 'H', '_', 'B', 'A', 'C', 'K', 'E', 'N', 'D'],
        "ARCHITECT_FRONTEND"@ == seq!['A', 'R', 'C', 'H', 'I', 'T', 'E', 'C', 'T', '_', 'F', 'R', 'O', 'N', 'T', 'E', 'N', 'D'],
        "CLARIFY_ARCH_FRONTEND"@ == seq!['C', 'L', 'A', 'R', 'I', 'F', 'Y', '_', 'A', 'R', 'C', 'H', '_', 'F', 'R', 'O', 'N', 'T', 'E', 'N', 'D'],
        "IMPLEMENT"@ == seq!['I', 'M', 'P', 'L', 'E', 'M', 'E', 'N', 'T'],
        "BUILD_VERIFY"@ == seq!['B', 'U', 'I', 'L', 'D', '_', 'V', 'E', 'R', 'I', 'F', 'Y'],
        "VISUAL_REVIEW"@ == seq!['V', 'I', 'S', 'U', 'A', 'L', '_', 'R', 'E', 'V', 'I', 'E', 'W'],
        "E2E_VERIFY"@ == seq!['E', '2', 'E', '_', 'V', 'E', 'R', 'I', 'F', 'Y'],
        "TEST"@ == seq!['T', 'E', 'S', 'T'],
        "ARCHIVE"@ == seq!['A', 'R', 'C', 'H', 'I', 'V', 'E'],
        "DONE"@ == seq!['D', 'O', 'N', 'E'],
        "CLARIFY"@ == seq!['C', 'L', 'A', 'R', 'I', 'F', 'Y'],
        "full"@ == seq!['f', 'u', 'l', 'l'],
        "lite"@ == seq!['l', 'i', 't', 'e'],
        "single"@ == seq!['s', 'i', 'n', 'g', 'l', 'e'],
        "tooling"@ == seq!['t', 'o', 'o', 'l', 'i', 'n', 'g'],
{
    reveal_strlit("INIT");
    reveal_strlit("INTENT_GATE");
    reveal_strlit("ANALYSE_PRODUCT");
    reveal_strlit("CLARIFY_PRODUCT");
    reveal_strlit("ANALYSE_TECH");
    reveal_strlit("CLARIFY_TECH");
    reveal_strlit("ARCHITECT_BACKEND");
    reveal_strlit("CLARIFY_ARCH_BACKEND");
    reveal_strlit("ARCHITECT_FRONTEND");
    reveal_strlit("CLARIFY_ARCH_FRONTEND");
    reveal_strlit("IMPLEMENT");
    reveal_strlit("BUILD_VERIFY");
    reveal_strlit("VISUAL_REVIEW");
    reveal_strlit("E2E_VERIFY");
    reveal_strlit("TEST");
    reveal_strlit("ARCHIVE");
    reveal_strlit("DONE");
    reveal_strlit("CLARIFY");
    reveal_strlit("full");
    reveal_strlit("lite");
    reveal_strlit("single");
    reveal_strlit("tooling");
}

/// Positions and stages correspond one to one.
pub proof fn lemma_stage_index(s: Stage)
    ensures
        0 <= stage_index(s) < 17,
        stage_at(stage_index(s)) == s,
{
}

/// Every stage name reads back as its stage, and every mode name as its mode.
pub proof fn lemma_names_parse(s: Stage, m: PathMode)
    ensures
        parse_stage(stage_name(s)) == Some(s),
        parse_mode(mode_name(m)) == Some(m),
{
    reveal_stage_names();
    reveal_with_fuel(parse_stage_from, 18);
}

/// A name that reads as a stage is that stage's name.
pub proof fn lemma_parse_sound(n: Seq<char>)
    ensures
        parse_stage(n) matches Some(st) ==> stage_name(st) == n,
{
    lemma_parse_from_sound(n, 0);
}

proof fn lemma_parse_from_sound(n: Seq<char>, i: int)
    ensures
        parse_stage_from(n, i) matches Some(st) ==> stage_name(st) == n,
    decreases 17 - i,
{
    if i < 17 && n != stage_name(stage_at(i)) {
        lemma_parse_from_sound(n, i + 1);
    }
}

/// The CLARIFY stages are exactly the four approval pauses.
pub proof fn lemma_clarify_stages(s: Stage)
    ensures
        is_clarify_name(stage_name(s)) <==> (s == Stage::ClarifyProduct || s == Stage::ClarifyTech
            || s == Stage::ClarifyArchBackend || s == Stage::ClarifyArchFrontend),
{
    reveal_stage_names();
    let p = "CLARIFY"@;
    let n = stage_name(s);
    if !(s == Stage::ClarifyProduct || s == Stage::ClarifyTech || s == Stage::ClarifyArchBackend
        || s == Stage::ClarifyArchFrontend) {
        if p.len() <= n.len() {
            if n[0] == 'C' {
                assert(s == Stage::E2eVerify || n[1] != p[1] || n[2] != p[2]);
                assert(n[1] != p[1] || n[2] != p[2]);
            } else {
                assert(n[0] != p[0]);
            }
        }
    }
}

/// The stage that follows position `i` on a route is on the route, at or after `i`, and no
/// stage of the route lies between.
pub proof fn lemma_next_from(i: int, m: PathMode)
    requires
        0 <= i,
    ensures
        next_from(i, m) matches Some(t) ==> {
            &&& in_mode(t, m)
            &&& i <= stage_index(t) < 17
            &&& forall|j: int| i <= j < stage_index(t) ==> !in_mode(stage_at(j), m)
        },
        next_from(i, m) is None ==> forall|j: int| i <= j < 17 ==> !in_mode(stage_at(j), m),
    decreases 17 - i,
{
    if i < 17 && !in_mode(stage_at(i), m) {
        lemma_next_from(i + 1, m);
    }
}

proof fn lemma_stage_at(i: int)
    requires
        0 <= i < 17,
    ensures
        stage_index(stage_at(i)) == i,
{
}

proof fn lemma_active_upto(n: int, m: PathMode)
    requires
        0 <= n <= 17,
    ensures
        forall|k: int|
            0 <= k < active_upto(n, m).len() ==> in_mode(#[trigger] active_upto(n, m)[k], m)
                && 0 <= stage_index(active_upto(n, m)[k]) < n,
        forall|a: int, b: int|
            0 <= a < b < active_upto(n, m).len() ==> stage_index(#[trigger] active_upto(n, m)[a])
                < stage_index(#[trigger] active_upto(n, m)[b]),
        forall|j: int|
            0 <= j < n && in_mode(#[trigger] stage_at(j), m) ==> exists|k: int|
                0 <= k < active_upto(n, m).len() && active_upto(n, m)[k] == stage_at(j),
    decreases n,
{
    if n > 0 {
        lemma_active_upto(n - 1, m);
        lemma_stage_at(n - 1);
        let p = active_upto(n - 1, m);
        let a = active_upto(n, m);
        assert forall|j: int| 0 <= j < n && in_mode(#[trigger] stage_at(j), m) implies exists|k: int|
            0 <= k < a.len() && a[k] == stage_at(j) by {
            if j < n - 1 {
                let k = choose|k: int| 0 <= k < p.len() && p[k] == stage_at(j);
                assert(a[k] == p[k]);
            } else {
                assert(a[a.len() - 1] == stage_at(j));
            }
        }
    }
}

/// The route list and the next stage agree: the stage after `s` on the route of `m` is the
/// first stage of `stages_for(m)` that lies after `s` in the canonical order, and there is
/// none exactly when no stage of the list lies after `s`.
pub proof fn law_next_stage_follows_the_route(s: Stage, m: PathMode)
    ensures
        ({
            let a = active_stages(m);
            match next_stage_spec(stage_name(s), mode_name(m)) {
                Some(t) => exists|k: int|
                    0 <= k < a.len() && a[k] == t && stage_index(t) > stage_index(s) && forall|
                        k2: int,
                    |
                        0 <= k2 < k ==> stage_index(#[trigger] a[k2]) <= stage_index(s),
                None => forall|k: int| 0 <= k < a.len() ==> stage_index(#[trigger] a[k]) <= stage_index(s),
            }
        }),
{
    lemma_names_parse(s, m);
    let i = stage_index(s);
    let a = active_stages(m);
    lemma_active_upto(17, m);
    lemma_next_from(i + 1, m);
    match next_from(i + 1, m) {
        Some(t) => {
            lemma_stage_index(t);
            assert(in_mode(stage_at(stage_index(t)), m));
            let k = choose|k: int| 0 <= k < a.len() && a[k] == stage_at(stage_index(t));
            assert forall|k2: int| 0 <= k2 < k implies stage_index(#[trigger] a[k2]) <= i by {
                assert(stage_index(a[k2]) < stage_index(a[k]));
                lemma_stage_index(a[k2]);
                if stage_index(a[k2]) > i {
                    assert(!in_mode(stage_at(stage_index(a[k2])), m));
                }
            }
        },
        None => {
            assert forall|k: int| 0 <= k < a.len() implies stage_index(#[trigger] a[k]) <= i by {
                lemma_stage_index(a[k]);
                if stage_index(a[k]) > i {
                    assert(!in_mode(stage_at(stage_index(a[k])), m));
                }
            }
        },
    }
}

/// DONE is on every route and nothing follows it.
pub proof fn law_done_is_terminal(m: PathMode)
    ensures
        in_mode(Stage::Done, m),
        next_stage_spec(stage_name(Stage::Done), mode_name(m)) is None,
{
    lemma_names_parse(Stage::Done, m);
}

/// From any stage other than DONE, every route goes on to a stage of the route that lies
/// strictly later in the canonical order, skipping only stages off the route; so repeated
/// advancing reaches DONE in at most 16 steps.
pub proof fn law_advance_makes_progress(s: Stage, m: PathMode)
    requires
        s != Stage::Done,
    ensures
        next_stage_spec(stage_name(s), mode_name(m)) matches Some(t) && {
            &&& in_mode(t, m)
            &&& stage_index(s) < stage_index(t)
            &&& forall|j: int| stage_index(s) < j < stage_index(t) ==> !in_mode(stage_at(j), m)
        },
{
    lemma_names_parse(s, m);
    lemma_next_from(stage_index(s) + 1, m);
    if next_from(stage_index(s) + 1, m) is None {
        assert(!in_mode(stage_at(16), m));
    }
}

/// Every route starts with INIT and INTENT_GATE and keeps the core delivery stages.
pub proof fn law_core_stages_on_every_route(m: PathMode)
    ensures
        in_mode(Stage::Init, m),
        in_mode(Stage::IntentGate, m),
        in_mode(Stage::Implement, m),
        in_mode(Stage::BuildVerify, m),
        in_mode(Stage::Test, m),
        in_mode(Stage::Archive, m),
        in_mode(Stage::Done, m),
{
}

/// `lite` skips the frontend architecture and the visual review; `tooling` also skips the
/// end-to-end verification; `single` skips every analysis, architecture and CLARIFY stage.
pub proof fn law_route_exclusions()
    ensures
        !in_mode(Stage::ArchitectFrontend, PathMode::Lite),
        !in_mode(Stage::ClarifyArchFrontend, PathMode::Lite),
        !in_mode(Stage::VisualReview, PathMode::Lite),
        in_mode(Stage::E2eVerify, PathMode::Lite),
        !in_mode(Stage::E2eVerify, PathMode::Tooling),
        !in_mode(Stage::VisualReview, PathMode::Tooling),
        !in_mode(Stage::ArchitectFrontend, PathMode::Tooling),
        in_mode(Stage::ArchitectBackend, PathMode::Tooling),
        !in_mode(Stage::AnalyseProduct, PathMode::Single),
        !in_mode(Stage::AnalyseTech, PathMode::Single),
        !in_mode(Stage::ArchitectBackend, PathMode::Single),
        forall|s: Stage|
            #![trigger in_mode(s, PathMode::Single)]
            in_mode(s, PathMode::Single) ==> !is_clarify_name(stage_name(s)),
{
    assert forall|s: Stage| #![trigger in_mode(s, PathMode::Single)]
        in_mode(s, PathMode::Single) implies !is_clarify_name(stage_name(s)) by {
        lemma_clarify_stages(s);
    }
}

/// The four routes, stage by stage, as `stages_for` lists them: `full` walks every stage;
/// `lite` every stage but the frontend architecture, its CLARIFY pause and the visual review
/// (so the product, tech and backend CLARIFY pauses all stay); `tooling` also skips the
/// end-to-end verification; `single` keeps only the core delivery stages.
pub proof fn law_routes()
    ensures
        active_stages(PathMode::Full) == seq![
            Stage::Init, Stage::IntentGate, Stage::AnalyseProduct, Stage::ClarifyProduct,
            Stage::AnalyseTech, Stage::ClarifyTech, Stage::ArchitectBackend,
            Stage::ClarifyArchBackend, Stage::ArchitectFrontend, Stage::ClarifyArchFrontend,
            Stage::Implement, Stage::BuildVerify, Stage::VisualReview, Stage::E2eVerify,
            Stage::Test, Stage::Archive, Stage::Done,
        ],
        active_stages(PathMode::Lite) == seq![
            Stage::Init, Stage::IntentGate, Stage::AnalyseProduct, Stage::ClarifyProduct,
            Stage::AnalyseTech, Stage::ClarifyTech, Stage::ArchitectBackend,
            Stage::ClarifyArchBackend, Stage::Implement, Stage::BuildVerify, Stage::E2eVerify,
            Stage::Test, Stage::Archive, Stage::Done,
        ],
        active_stages(PathMode::Tooling) == seq![
            Stage::Init, Stage::IntentGate, Stage::AnalyseProduct, Stage::ClarifyProduct,
            Stage::AnalyseTech, Stage::ClarifyTech, Stage::ArchitectBackend,
            Stage::ClarifyArchBackend, Stage::Implement, Stage::BuildVerify, Stage::Test,
            Stage::Archive, Stage::Done,
        ],
        active_stages(PathMode::Single) == seq![
            Stage::Init, Stage::IntentGate, Stage::Implement, Stage::BuildVerify, Stage::Test,
            Stage::Archive, Stage::Done,
        ],
{
    reveal_with_fuel(active_upto, 18);
    assert(active_stages(PathMode::Full) =~= seq![
        Stage::Init, Stage::IntentGate, Stage::AnalyseProduct, Stage::ClarifyProduct,
        Stage::AnalyseTech, Stage::ClarifyTech, Stage::ArchitectBackend,
        Stage::ClarifyArchBackend, Stage::ArchitectFrontend, Stage::ClarifyArchFrontend,
        Stage::Implement, Stage::BuildVerify, Stage::VisualReview, Stage::E2eVerify,
        Stage::Test, Stage::Archive, Stage::Done,
    ]);
    assert(active_stages(PathMode::Lite) =~= seq![
        Stage::Init, Stage::IntentGate, Stage::AnalyseProduct, Stage::ClarifyProduct,
        Stage::AnalyseTech, Stage::ClarifyTech, Stage::ArchitectBackend,
        Stage::ClarifyArchBackend, Stage::Implement, Stage::BuildVerify, Stage::E2eVerify,
        Stage::Test, Stage::Archive, Stage::Done,
    ]);
    assert(active_stages(PathMode::Tooling) =~= seq![
        Stage::Init, Stage::IntentGate, Stage::AnalyseProduct, Stage::ClarifyProduct,
        Stage::AnalyseTech, Stage::ClarifyTech, Stage::ArchitectBackend,
        Stage::ClarifyArchBackend, Stage::Implement, Stage::BuildVerify, Stage::Test,
        Stage::Archive, Stage::Done,
    ]);
    assert(active_stages(PathMode::Single) =~= seq![
        Stage::Init, Stage::IntentGate, Stage::Implement, Stage::BuildVerify, Stage::Test,
        Stage::Archive, Stage::Done,
    ]);
}

/// On the lite route a run at ANALYSE_TECH goes on to the CLARIFY_TECH pause, and from
/// CLARIFY_ARCH_BACKEND straight to IMPLEMENT.
pub proof fn law_lite_keeps_the_tech_pause()
    ensures
        next_stage_spec(stage_name(Stage::AnalyseTech), mode_name(PathMode::Lite)) == Some(
            Stage::ClarifyTech,
        ),
        next_stage_spec(stage_name(Stage::ClarifyArchBackend), mode_name(PathMode::Lite)) == Some(
            Stage::Implement,
        ),
{
    lemma_names_parse(Stage::AnalyseTech, PathMode::Lite);
    lemma_names_parse(Stage::ClarifyArchBackend, PathMode::Lite);
    reveal_with_fuel(next_from, 4);
}

} // verus!
