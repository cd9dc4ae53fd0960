//! Case files: what a case asks for and what it is graded against.

use crate::binary64::{is_max, is_quotient, lemma_below_one, Binary64, EXPONENT_WEIGHT};
use crate::json::{
    is_plain_key, json_contents, json_document, json_member, json_member_of, json_number, json_parsed, json_present,
    json_rendered, json_unsigned, number_at, parse_json, present_at, render_json,
    unsigned_at, JsonEntry,
};
use vstd::arithmetic::power2::{lemma2_to64, pow2};
use vstd::prelude::*;

verus! {

/// Where a case asks to run.
#[derive(Clone, Copy, Debug, PartialEq, Eq, Structural)]
pub enum RunnerHint {
    /// On the CPU, whatever its size.
    Cpu,
    /// On the GPU, unless there is none or it has no room.
    Gpu,
    /// Wherever the routing rules send it.
    Auto,
}

impl Default for RunnerHint {
    fn default() -> (r: Self)
        ensures
            r == RunnerHint::Auto,
    {
        RunnerHint::Auto
    }
}

/// Where a reference multiplication factor comes from.
#[derive(Clone, Copy, Debug, PartialEq, Eq, Structural)]
pub enum ReferenceSource {
    /// The benchmark handbook.
    Handbook,
    /// A run of OpenMC on the same scene, recorded in the case file.
    OpenMc,
}

/// Weight cutoff and survival weight of implicit capture.
#[derive(Clone, Copy, Debug, PartialEq, Eq, Structural)]
pub struct SurvivalBiasing {
    pub w_min: Binary64,
    pub w_survive: Binary64,
}

/// The bits of 0.25.
pub const W_MIN_BITS: u64 = 0x3fd0_0000_0000_0000;

/// The bits of 1.0.
pub const W_SURVIVE_BITS: u64 = 0x3ff0_0000_0000_0000;

impl Default for SurvivalBiasing {
    fn default() -> (r: Self)
        ensures
            r.w_min.bits == W_MIN_BITS,
            r.w_survive.bits == W_SURVIVE_BITS,
    {
        SurvivalBiasing {
            w_min: Binary64::from_bits(W_MIN_BITS),
            w_survive: Binary64::from_bits(W_SURVIVE_BITS),
        }
    }
}

/// Settings of one simulation.
#[derive(Clone, Copy, Debug, PartialEq, Eq, Structural)]
pub struct SimConfig {
    pub batches: u32,
    pub inactive: u32,
    pub particles_per_batch: u32,
    pub seed: u64,
    pub verbose: bool,
    pub parallel: bool,
    pub survival_biasing: Option<SurvivalBiasing>,
    pub disable_delayed_neutrons: bool,
    pub gpu_auto_refill: bool,
}

/// A material of a scene, as far as routing reads it.
#[derive(Clone, Debug)]
pub struct SceneMaterial {
    pub name: String,
    pub thermal_files: Vec<String>,
}

/// A scene, as far as routing reads it.
#[derive(Clone, Debug)]
pub struct SceneDto {
    pub materials: Vec<SceneMaterial>,
    pub rect_lattices: usize,
    pub hex_lattices: usize,
}

/// A parsed case.
pub struct CaseSpec {
    pub case_id: String,
    pub seq: usize,
    pub total: usize,
    pub k_ref: Binary64,
    pub sigma_exp: Binary64,
    pub source: ReferenceSource,
    pub scene: SceneDto,
    pub config: SimConfig,
    pub runner: RunnerHint,
    pub source_path: String,
}

/// Some material of the scene names a thermal-scattering file.
pub open spec fn scene_is_thermal(materials: Seq<SceneMaterial>) -> bool {
    exists|i: int| 0 <= i < materials.len() && (#[trigger] materials[i]).thermal_files@.len() > 0
}

/// Particles per batch times batches.
pub open spec fn work_of(config: SimConfig) -> int {
    config.particles_per_batch * config.batches
}

impl CaseSpec {
    /// Whether any material of the scene names a thermal-scattering file.
    pub fn has_thermal_scattering(&self) -> (r: bool)
        ensures
            r == scene_is_thermal(self.scene.materials@),
    {
        let materials = &self.scene.materials;
        let mut i: usize = 0;
        while i < materials.len()
            invariant
                *materials == self.scene.materials,
                i <= materials@.len(),
                forall|k: int| 0 <= k < i ==> (#[trigger] materials@[k]).thermal_files@.len() == 0,
            decreases materials@.len() - i,
        {
            if materials[i].thermal_files.len() > 0 {
                return true;
            }
            i += 1;
        }
        false
    }

    /// The number of materials in the scene.
    pub fn material_count(&self) -> (r: usize)
        ensures
            r == self.scene.materials@.len(),
    {
        self.scene.materials.len()
    }

    /// Whether the scene has a lattice of either shape.
    pub fn has_lattice(&self) -> (r: bool)
        ensures
            r == (self.scene.rect_lattices > 0 || self.scene.hex_lattices > 0),
    {
        self.scene.rect_lattices > 0 || self.scene.hex_lattices > 0
    }

    /// The size of the case in particles, all batches together.
    pub fn work_proxy(&self) -> (r: u64)
        ensures
            r == work_of(self.config),
    {
        let p: u64 = self.config.particles_per_batch as u64;
        let b: u64 = self.config.batches as u64;
        assert(p * b <= 0xffff_ffff * 0xffff_ffff) by (nonlinear_arith)
            requires
                p <= 0xffff_ffff,
                b <= 0xffff_ffff,
        ;
        p * b
    }
}

/// Why a case file was refused.
#[derive(Debug)]
#[allow(inconsistent_fields)]
pub enum CaseParseError {
    /// The file could not be read, with the message.
    Io { path: String, source: String },
    /// The file, or its scene, is not the JSON it should be.
    Json { path: String, source: serde_json::Error },
    /// The file has no scene.
    NoSceneBlock { path: String },
    /// The handbook factor is missing.
    MissingKRef { path: String },
    /// The uncertainty of the handbook factor is missing.
    MissingSigma { path: String },
    /// The scene is not one that the engine takes, with the message.
    SceneLoad { path: String, source: String },
}

/// Why the scene of a case could not be had.
#[derive(Debug)]
pub enum SceneFailure {
    /// The engine refused it, with the message.
    Load(String),
    /// It does not have the form of a scene.
    Json(serde_json::Error),
}

/// Settings from the command line that every case starts from.
#[derive(Clone, Copy, Debug, PartialEq, Eq, Structural)]
pub struct CaseDefaults {
    pub particles_per_batch: Option<u32>,
    pub batches: Option<u32>,
    pub inactive_batches: Option<u32>,
    pub base_seed: u64,
    pub survival_biasing: bool,
}

/// Settings that a case file recommends.
#[derive(Clone, Copy, Debug, PartialEq, Eq, Structural)]
pub struct Recommended {
    pub particles_per_batch: Option<u64>,
    pub batches: Option<u64>,
    pub inactive_batches: Option<u64>,
}

pub const DEFAULT_PARTICLES: u32 = 100_000;

pub const DEFAULT_BATCHES: u32 = 150;

pub const DEFAULT_INACTIVE: u32 = 30;

/// The command line wins over the case file, and the case file over the built-in
/// value. A recommendation beyond 32 bits keeps its low 32 bits.
pub open spec fn setting(cli: Option<u32>, recommended: Option<u64>, built_in: u32) -> int {
    match cli {
        Some(v) => v as int,
        None => match recommended {
            Some(v) => (v % 0x1_0000_0000) as int,
            None => built_in as int,
        },
    }
}

fn pick_setting(cli: Option<u32>, recommended: Option<u64>, built_in: u32) -> (r: u32)
    ensures
        r == setting(cli, recommended, built_in),
{
    match cli {
        Some(v) => v,
        None => match recommended {
            Some(v) => (v % 0x1_0000_0000) as u32,
            None => built_in,
        },
    }
}

impl CaseDefaults {
    /// Particles per batch, batches and inactive batches of a case.
    pub fn resolve(&self, recommended: &Recommended) -> (r: (u32, u32, u32))
        ensures
            r.0 == setting(self.particles_per_batch, recommended.particles_per_batch, DEFAULT_PARTICLES),
            r.1 == setting(self.batches, recommended.batches, DEFAULT_BATCHES),
            r.2 == setting(self.inactive_batches, recommended.inactive_batches, DEFAULT_INACTIVE),
    {
        (
            pick_setting(self.particles_per_batch, recommended.particles_per_batch, DEFAULT_PARTICLES),
            pick_setting(self.batches, recommended.batches, DEFAULT_BATCHES),
            pick_setting(self.inactive_batches, recommended.inactive_batches, DEFAULT_INACTIVE),
        )
    }
}

/// What the library reads of a case file.
#[derive(Clone, Copy, Debug, PartialEq, Eq, Structural)]
pub struct CaseFields {
    pub has_scene: bool,
    pub k_eff_reference: Option<Binary64>,
    pub k_eff_sigma: Option<Binary64>,
    pub openmc_k_eff: Option<Binary64>,
    pub openmc_k_sigma_seeds: Option<Binary64>,
    pub recommended: Recommended,
}

/// The fields of a case file by where they stand in its document.
pub open spec fn fields_of(contents: Map<Seq<char>, JsonEntry>) -> CaseFields {
    CaseFields {
        has_scene: present_at(contents, "/scene"@),
        k_eff_reference: number_at(contents, "/benchmark/k_eff_reference"@),
        k_eff_sigma: number_at(contents, "/benchmark/k_eff_sigma"@),
        openmc_k_eff: number_at(contents, "/benchmark/local_validation/openmc_k_eff"@),
        openmc_k_sigma_seeds: number_at(contents, "/benchmark/local_validation/openmc_k_sigma_seeds"@),
        recommended: Recommended {
            particles_per_batch: unsigned_at(contents, "/benchmark/recommended_settings/particles_per_batch"@),
            batches: unsigned_at(contents, "/benchmark/recommended_settings/batches"@),
            inactive_batches: unsigned_at(contents, "/benchmark/recommended_settings/inactive_batches"@),
        },
    }
}

pub(crate) fn read_fields(value: &serde_json::Value) -> (r: CaseFields)
    ensures
        r == fields_of(json_contents(*value)),
{
    CaseFields {
        has_scene: json_present(value, "/scene"),
        k_eff_reference: json_number(value, "/benchmark/k_eff_reference"),
        k_eff_sigma: json_number(value, "/benchmark/k_eff_sigma"),
        openmc_k_eff: json_number(value, "/benchmark/local_validation/openmc_k_eff"),
        openmc_k_sigma_seeds: json_number(value, "/benchmark/local_validation/openmc_k_sigma_seeds"),
        recommended: Recommended {
            particles_per_batch: json_unsigned(value, "/benchmark/recommended_settings/particles_per_batch"),
            batches: json_unsigned(value, "/benchmark/recommended_settings/batches"),
            inactive_batches: json_unsigned(value, "/benchmark/recommended_settings/inactive_batches"),
        },
    }
}

/// The bits of 0.001, the seed-to-seed spread assumed of an OpenMC run that
/// records none.
pub const OPENMC_SIGMA_BITS: u64 = 0x3f50_624d_d2f1_a9fc;

/// What a case is graded against.
#[derive(Clone, Copy, Debug, PartialEq, Eq, Structural)]
pub struct Reference {
    pub k_ref: Binary64,
    pub sigma_exp: Binary64,
    pub source: ReferenceSource,
}

/// The OpenMC factor is preferred where the file records one, with the larger of
/// its own spread and the handbook uncertainty; else the handbook stands.
pub open spec fn is_reference(
    r: Reference,
    handbook_k: Binary64,
    handbook_sigma: Binary64,
    openmc_k: Option<Binary64>,
    openmc_sigma: Option<Binary64>,
) -> bool {
    match openmc_k {
        Some(k) => {
            &&& r.source == ReferenceSource::OpenMc
            &&& r.k_ref == k
            &&& match openmc_sigma {
                Some(s) => is_max(s, handbook_sigma, r.sigma_exp),
                None => is_max(Binary64 { bits: OPENMC_SIGMA_BITS }, handbook_sigma, r.sigma_exp),
            }
        },
        None => {
            &&& r.source == ReferenceSource::Handbook
            &&& r.k_ref == handbook_k
            &&& r.sigma_exp == handbook_sigma
        },
    }
}

/// Chooses what a case is graded against.
pub fn choose_reference(
    handbook_k: Binary64,
    handbook_sigma: Binary64,
    openmc_k: Option<Binary64>,
    openmc_sigma: Option<Binary64>,
) -> (r: Reference)
    ensures
        is_reference(r, handbook_k, handbook_sigma, openmc_k, openmc_sigma),
{
    match openmc_k {
        Some(k) => {
            let s = match openmc_sigma {
                Some(s) => s,
                None => Binary64::from_bits(OPENMC_SIGMA_BITS),
            };
            Reference { k_ref: k, sigma_exp: s.max(handbook_sigma), source: ReferenceSource::OpenMc }
        },
        None => Reference { k_ref: handbook_k, sigma_exp: handbook_sigma, source: ReferenceSource::Handbook },
    }
}

/// `config` is what the defaults and the recommendations of a case make.
pub open spec fn is_config(config: SimConfig, defaults: CaseDefaults, recommended: Recommended) -> bool {
    &&& config.particles_per_batch == setting(
        defaults.particles_per_batch,
        recommended.particles_per_batch,
        DEFAULT_PARTICLES,
    )
    &&& config.batches == setting(defaults.batches, recommended.batches, DEFAULT_BATCHES)
    &&& config.inactive == setting(defaults.inactive_batches, recommended.inactive_batches, DEFAULT_INACTIVE)
    &&& config.seed == defaults.base_seed
    &&& !config.verbose
    &&& config.parallel
    &&& !config.disable_delayed_neutrons
    &&& config.gpu_auto_refill
    &&& if defaults.survival_biasing {
        &&& config.survival_biasing is Some
        &&& config.survival_biasing->0.w_min.bits == W_MIN_BITS
        &&& config.survival_biasing->0.w_survive.bits == W_SURVIVE_BITS
    } else {
        config.survival_biasing is None
    }
}

/// The settings that a case runs with.
pub fn case_config(defaults: &CaseDefaults, recommended: &Recommended) -> (r: SimConfig)
    ensures
        is_config(r, *defaults, *recommended),
{
    let (particles_per_batch, batches, inactive) = defaults.resolve(recommended);
    SimConfig {
        batches,
        inactive,
        particles_per_batch,
        seed: defaults.base_seed,
        verbose: false,
        parallel: true,
        survival_biasing: if defaults.survival_biasing {
            Some(SurvivalBiasing::default())
        } else {
            None
        },
        disable_delayed_neutrons: false,
        gpu_auto_refill: true,
    }
}

/// The path that a refusal names.
pub open spec fn error_path(e: CaseParseError) -> Seq<char> {
    match e {
        CaseParseError::Io { path, .. } => path@,
        CaseParseError::Json { path, .. } => path@,
        CaseParseError::NoSceneBlock { path } => path@,
        CaseParseError::MissingKRef { path } => path@,
        CaseParseError::MissingSigma { path } => path@,
        CaseParseError::SceneLoad { path, .. } => path@,
    }
}

/// The file holds a scene and both handbook numbers.
pub open spec fn fields_complete(fields: CaseFields) -> bool {
    fields.has_scene && fields.k_eff_reference is Some && fields.k_eff_sigma is Some
}

/// `r` is what a file with these fields, and this scene, comes to. What is missing
/// is reported in order: the scene, the handbook factor, its uncertainty, and then
/// whatever is wrong with the scene itself.
pub open spec fn is_case_outcome(
    r: Result<CaseSpec, CaseParseError>,
    place: CasePlace,
    fields: CaseFields,
    defaults: CaseDefaults,
    hint: RunnerHint,
    scene: Result<SceneDto, SceneFailure>,
) -> bool {
    match r {
        Ok(spec) => {
            &&& fields_complete(fields)
            &&& scene == Ok::<SceneDto, SceneFailure>(spec.scene)
            &&& spec.case_id@ == case_id_of(place)
            &&& spec.seq == place.seq
            &&& spec.total == place.total
            &&& spec.source_path@ == place.path@
            &&& spec.runner == hint
            &&& is_config(spec.config, defaults, fields.recommended)
            &&& is_reference(
                Reference { k_ref: spec.k_ref, sigma_exp: spec.sigma_exp, source: spec.source },
                fields.k_eff_reference->0,
                fields.k_eff_sigma->0,
                fields.openmc_k_eff,
                fields.openmc_k_sigma_seeds,
            )
        },
        Err(e) => {
            &&& error_path(e) == place.path@
            &&& if !fields.has_scene {
                e is NoSceneBlock
            } else if fields.k_eff_reference is None {
                e is MissingKRef
            } else if fields.k_eff_sigma is None {
                e is MissingSigma
            } else {
                match scene {
                    Err(SceneFailure::Load(message)) => e is SceneLoad && e->SceneLoad_source == message,
                    Err(SceneFailure::Json(cause)) => e is Json && e->Json_source == cause,
                    Ok(_) => false,
                }
            }
        },
    }
}

/// Where a case file stands in a sweep.
#[derive(Clone, Debug)]
pub struct CasePlace {
    /// The path of the file.
    pub path: String,
    /// The file's name without its extension, where it is readable text.
    pub stem: Option<String>,
    pub seq: usize,
    pub total: usize,
}

/// The identity of a case: the stem of its file, or a question mark.
pub open spec fn case_id_of(place: CasePlace) -> Seq<char> {
    match place.stem {
        Some(s) => s@,
        None => "?"@,
    }
}

/// Makes a case of the fields of its file and its scene.
pub fn case_from_fields(
    place: &CasePlace,
    fields: &CaseFields,
    defaults: &CaseDefaults,
    hint: RunnerHint,
    scene: Result<SceneDto, SceneFailure>,
) -> (r: Result<CaseSpec, CaseParseError>)
    ensures
        is_case_outcome(r, *place, *fields, *defaults, hint, scene),
{
    if !fields.has_scene {
        return Err(CaseParseError::NoSceneBlock { path: place.path.clone() });
    }
    let handbook_k = match fields.k_eff_reference {
        Some(k) => k,
        None => {
            return Err(CaseParseError::MissingKRef { path: place.path.clone() });
        },
    };
    let handbook_sigma = match fields.k_eff_sigma {
        Some(s) => s,
        None => {
            return Err(CaseParseError::MissingSigma { path: place.path.clone() });
        },
    };
    let reference = choose_reference(
        handbook_k,
        handbook_sigma,
        fields.openmc_k_eff,
        fields.openmc_k_sigma_seeds,
    );
    match scene {
        Err(SceneFailure::Load(message)) => Err(
            CaseParseError::SceneLoad { path: place.path.clone(), source: message },
        ),
        Err(SceneFailure::Json(cause)) => Err(CaseParseError::Json { path: place.path.clone(), source: cause }),
        Ok(dto) => {
            let case_id = match &place.stem {
                Some(s) => s.clone(),
                None => "?".to_owned(),
            };
            Ok(
                CaseSpec {
                    case_id,
                    seq: place.seq,
                    total: place.total,
                    k_ref: reference.k_ref,
                    sigma_exp: reference.sigma_exp,
                    source: reference.source,
                    scene: dto,
                    config: case_config(defaults, &fields.recommended),
                    runner: hint,
                    source_path: place.path.clone(),
                },
            )
        },
    }
}

/// The text of the scene that a case holds, for the engine to read: that of `null`
/// where the case has none. A text that is no JSON document has no scene.
pub fn scene_text(text: &str) -> (r: Option<String>)
    ensures
        r is None <==> json_document(text@) is None,
        r matches Some(s) ==> json_parsed(text@) is Some && s@ == json_rendered(
            json_member_of(json_parsed(text@)->0, "scene"@),
        ),
        r is Some ==> present_at(json_contents(json_member_of(json_parsed(text@)->0, "scene"@)), ""@) == fields_of(
            json_document(text@)->0,
        ).has_scene,
{
    proof {
        reveal_strlit("scene");
        reveal_strlit("/");
        reveal_strlit("/scene");
        assert("/"@ + "scene"@ =~= "/scene"@);
        assert(is_plain_key("scene"@));
    }
    match parse_json(text) {
        Err(_) => None,
        Ok(value) => match render_json(json_member(&value, "scene")) {
            Ok(s) => Some(s),
            Err(_) => None,
        },
    }
}

/// Reads a case from the text of its file. The scene comes from the engine, which
/// reads the text that `scene_text` takes out; its failure is reported only where
/// the file itself is in order.
pub fn parse_case_json(
    place: &CasePlace,
    text: &str,
    defaults: &CaseDefaults,
    hint: RunnerHint,
    scene: Result<SceneDto, SceneFailure>,
) -> (r: Result<CaseSpec, CaseParseError>)
    ensures
        match json_document(text@) {
            None => r is Err && r->Err_0 is Json && error_path(r->Err_0) == place.path@,
            Some(contents) => is_case_outcome(r, *place, fields_of(contents), *defaults, hint, scene),
        },
{
    match parse_json(text) {
        Err(cause) => Err(CaseParseError::Json { path: place.path.clone(), source: cause }),
        Ok(value) => {
            let fields = read_fields(&value);
            case_from_fields(place, &fields, defaults, hint, scene)
        },
    }
}

/// A command-line setting is never overridden.
pub proof fn law_command_line_wins(v: u32, recommended: Option<u64>, built_in: u32)
    ensures
        setting(Some(v), recommended, built_in) == v,
{
}

/// A recommendation that fits 32 bits wins over the built-in value.
pub proof fn law_recommendation_wins_over_built_in(v: u64, built_in: u32)
    requires
        v <= u32::MAX,
    ensures
        setting(None, Some(v), built_in) == v,
{
}

/// Grading against OpenMC never shrinks the handbook uncertainty.
pub proof fn law_openmc_sigma_covers_handbook(
    r: Reference,
    handbook_k: Binary64,
    handbook_sigma: Binary64,
    openmc_k: Option<Binary64>,
    openmc_sigma: Option<Binary64>,
)
    requires
        is_reference(r, handbook_k, handbook_sigma, openmc_k, openmc_sigma),
        !handbook_sigma.nan(),
    ensures
        handbook_sigma.at_most(r.sigma_exp),
{
}

/// A case is read from the places of its document that the format names. It is
/// complete exactly where it has a scene, a handbook factor and its uncertainty, and
/// the engine takes the scene.
pub proof fn law_case_is_complete_or_refused(
    place: &CasePlace,
    text: &str,
    defaults: &CaseDefaults,
    hint: RunnerHint,
    scene: Result<SceneDto, SceneFailure>,
    contents: Map<Seq<char>, JsonEntry>,
    r: Result<CaseSpec, CaseParseError>,
)
    requires
        call_ensures(parse_case_json, (place, text, defaults, hint, scene), r),
        json_document(text@) == Some(contents),
    ensures
        r is Ok <==> present_at(contents, "/scene"@) && number_at(contents, "/benchmark/k_eff_reference"@) is Some
            && number_at(contents, "/benchmark/k_eff_sigma"@) is Some && scene is Ok,
        !present_at(contents, "/scene"@) ==> r is Err && r->Err_0 is NoSceneBlock,
        present_at(contents, "/scene"@) && number_at(contents, "/benchmark/k_eff_reference"@) is None ==> r is Err
            && r->Err_0 is MissingKRef,
        present_at(contents, "/scene"@) && number_at(contents, "/benchmark/k_eff_reference"@) is Some && number_at(
            contents,
            "/benchmark/k_eff_sigma"@,
        ) is None ==> r is Err && r->Err_0 is MissingSigma,
        r matches Ok(spec) ==> {
            &&& scene == Ok::<SceneDto, SceneFailure>(spec.scene)
            &&& spec.seq == place.seq && spec.total == place.total
            &&& spec.source_path@ == place.path@
            &&& place.stem matches Some(s) ==> spec.case_id@ == s@
            &&& spec.runner == hint
            &&& spec.config.seed == defaults.base_seed
            &&& !spec.config.verbose && spec.config.parallel && spec.config.gpu_auto_refill
            &&& !spec.config.disable_delayed_neutrons
            &&& spec.config.survival_biasing is Some <==> defaults.survival_biasing
            &&& spec.config.survival_biasing matches Some(b) ==> is_quotient(b.w_min, 1, 4) && is_quotient(
                b.w_survive,
                1,
                1,
            )
        },
{
    lemma_w_min();
    lemma_w_survive();
}

/// The number at a place of a document, or that none stands there.
pub open spec fn stands_at(contents: Map<Seq<char>, JsonEntry>, pointer: Seq<char>, number: Option<Binary64>) -> bool {
    number_at(contents, pointer) == number
}

/// A case whose file records an OpenMC factor is graded against that factor, with
/// the larger of the spread that stands beside it in the document and the handbook
/// uncertainty. So its uncertainty is no smaller than the recorded spread.
pub proof fn law_openmc_spread_is_that_of_the_file(
    place: &CasePlace,
    text: &str,
    defaults: &CaseDefaults,
    hint: RunnerHint,
    scene: Result<SceneDto, SceneFailure>,
    contents: Map<Seq<char>, JsonEntry>,
    spec: CaseSpec,
    k: Binary64,
    spread: Binary64,
    handbook: Binary64,
)
    requires
        call_ensures(parse_case_json, (place, text, defaults, hint, scene), Ok(spec)),
        json_document(text@) == Some(contents),
        stands_at(contents, "/benchmark/local_validation/openmc_k_eff"@, Some(k)),
        stands_at(contents, "/benchmark/local_validation/openmc_k_sigma_seeds"@, Some(spread)),
        stands_at(contents, "/benchmark/k_eff_sigma"@, Some(handbook)),
        !spread.nan(),
        !handbook.nan(),
    ensures
        spec.source == ReferenceSource::OpenMc,
        spec.k_ref == k,
        spread.scaled() <= spec.sigma_exp.scaled() && handbook.scaled() <= spec.sigma_exp.scaled(),
        spec.sigma_exp == spread || spec.sigma_exp == handbook,
{
}

/// Where an OpenMC factor stands without a spread, one thousandth stands for it.
pub proof fn law_openmc_without_spread(
    place: &CasePlace,
    text: &str,
    defaults: &CaseDefaults,
    hint: RunnerHint,
    scene: Result<SceneDto, SceneFailure>,
    contents: Map<Seq<char>, JsonEntry>,
    spec: CaseSpec,
    k: Binary64,
    handbook: Binary64,
)
    requires
        call_ensures(parse_case_json, (place, text, defaults, hint, scene), Ok(spec)),
        json_document(text@) == Some(contents),
        stands_at(contents, "/benchmark/local_validation/openmc_k_eff"@, Some(k)),
        stands_at(contents, "/benchmark/local_validation/openmc_k_sigma_seeds"@, None),
        stands_at(contents, "/benchmark/k_eff_sigma"@, Some(handbook)),
        !handbook.nan(),
    ensures
        spec.source == ReferenceSource::OpenMc,
        spec.k_ref == k,
        handbook.scaled() <= spec.sigma_exp.scaled(),
        (Binary64 { bits: OPENMC_SIGMA_BITS }).scaled() <= spec.sigma_exp.scaled(),
        spec.sigma_exp == handbook || is_quotient(spec.sigma_exp, 1, 1000),
        is_quotient(Binary64 { bits: OPENMC_SIGMA_BITS }, 1, 1000),
{
    lemma_openmc_sigma();
}

/// A case whose file records no OpenMC factor is graded against the handbook.
pub proof fn law_handbook_stands_without_openmc(
    place: &CasePlace,
    text: &str,
    defaults: &CaseDefaults,
    hint: RunnerHint,
    scene: Result<SceneDto, SceneFailure>,
    contents: Map<Seq<char>, JsonEntry>,
    spec: CaseSpec,
)
    requires
        call_ensures(parse_case_json, (place, text, defaults, hint, scene), Ok(spec)),
        json_document(text@) == Some(contents),
        stands_at(contents, "/benchmark/local_validation/openmc_k_eff"@, None),
    ensures
        spec.source == ReferenceSource::Handbook,
        stands_at(contents, "/benchmark/k_eff_reference"@, Some(spec.k_ref)),
        stands_at(contents, "/benchmark/k_eff_sigma"@, Some(spec.sigma_exp)),
{
}

/// A setting of a case: what the command line says, else what stands at a place of
/// the document (its low 32 bits), else the built-in value.
pub open spec fn is_setting(
    value: u32,
    cli: Option<u32>,
    contents: Map<Seq<char>, JsonEntry>,
    pointer: Seq<char>,
    built_in: int,
) -> bool {
    &&& cli matches Some(v) ==> value == v
    &&& cli is None && unsigned_at(contents, pointer) is Some ==> value == unsigned_at(contents, pointer)->0
        % 0x1_0000_0000
    &&& cli is None && unsigned_at(contents, pointer) is None ==> value == built_in
}

/// The run settings of a case come from the command line, from the places of its
/// document that the format names, or are 100000 particles, 150 batches and 30
/// inactive ones.
pub proof fn law_settings_are_those_of_the_file(
    place: &CasePlace,
    text: &str,
    defaults: &CaseDefaults,
    hint: RunnerHint,
    scene: Result<SceneDto, SceneFailure>,
    contents: Map<Seq<char>, JsonEntry>,
    spec: CaseSpec,
)
    requires
        call_ensures(parse_case_json, (place, text, defaults, hint, scene), Ok(spec)),
        json_document(text@) == Some(contents),
    ensures
        is_setting(
            spec.config.particles_per_batch,
            defaults.particles_per_batch,
            contents,
            "/benchmark/recommended_settings/particles_per_batch"@,
            100_000,
        ),
        is_setting(
            spec.config.batches,
            defaults.batches,
            contents,
            "/benchmark/recommended_settings/batches"@,
            150,
        ),
        is_setting(
            spec.config.inactive,
            defaults.inactive_batches,
            contents,
            "/benchmark/recommended_settings/inactive_batches"@,
            30,
        ),
{
}

/// The work of a case is its particles per batch times its batches, and it scatters
/// thermally exactly where one of its materials names a file for that.
pub proof fn law_case_tells_its_size(spec: &CaseSpec, work: u64, thermal: bool, lattice: bool)
    requires
        call_ensures(CaseSpec::work_proxy, (spec,), work),
        call_ensures(CaseSpec::has_thermal_scattering, (spec,), thermal),
        call_ensures(CaseSpec::has_lattice, (spec,), lattice),
    ensures
        work == spec.config.particles_per_batch * spec.config.batches,
        !thermal <==> forall|i: int|
            0 <= i < spec.scene.materials@.len() ==> (#[trigger] spec.scene.materials@[i]).thermal_files@.len() == 0,
        !lattice <==> spec.scene.rect_lattices == 0 && spec.scene.hex_lattices == 0,
{
}

proof fn lemma_w_min()
    ensures
        is_quotient(Binary64 { bits: W_MIN_BITS }, 1, 4),
{
    let x = Binary64 { bits: W_MIN_BITS };
    assert(x.bits as int / EXPONENT_WEIGHT as int == 1021 && x.bits as int % EXPONENT_WEIGHT as int == 0);
    let p = lemma_below_one(x, 2);
    lemma2_to64();
    assert(pow2(2) == 4);
    assert(pow2(2) * p == 4 * p);
}

proof fn lemma_w_survive()
    ensures
        is_quotient(Binary64 { bits: W_SURVIVE_BITS }, 1, 1),
{
    let x = Binary64 { bits: W_SURVIVE_BITS };
    assert(x.bits as int / EXPONENT_WEIGHT as int == 1023 && x.bits as int % EXPONENT_WEIGHT as int == 0);
    let p = lemma_below_one(x, 0);
    lemma2_to64();
    assert(pow2(0) * p == p);
}

proof fn lemma_openmc_sigma()
    ensures
        is_quotient(Binary64 { bits: OPENMC_SIGMA_BITS }, 1, 1000),
{
    let x = Binary64 { bits: OPENMC_SIGMA_BITS };
    assert(x.bits as int / EXPONENT_WEIGHT as int == 1013 && x.bits as int % EXPONENT_WEIGHT as int == 108086391056892);
    let p = lemma_below_one(x, 10);
    lemma2_to64();
    assert(pow2(10) == 1024);
    assert(pow2(10) * p == 1024 * p);
}

} // verus!
