//! Job postings and the rule-based classifier over their titles.
//!
//! Each rule set is an ordered table of phrases evaluated first-match-wins
//! against the normalized title; a fixed default applies when nothing
//! matches. Classification is total and deterministic: it depends on the
//! title text alone.

use vstd::prelude::*;

use crate::text::matches_any;
use crate::text::matches_any_exec;
use crate::text::norm_spec;
use crate::text::normalized;
use crate::text::str_chars;
use crate::text::views_of;

verus! {

/// The seniority level read out of a title.
#[derive(Clone, Copy, PartialEq, Eq, Structural, Debug)]
pub enum JobLevel {
    Intern,
    Entry,
    Mid,
    Senior,
    Lead,
}

/// The technical specialty read out of a title, when one is named.
#[derive(Clone, Copy, PartialEq, Eq, Structural, Debug)]
pub enum JobSpecialty {
    Gameplay,
    Graphics,
    Engine,
    Physics,
    Animation,
    Ai,
    Audio,
    Ui,
    Network,
    Automation,
    Web,
}

/// The discipline read out of a title.
#[derive(Clone, Copy, PartialEq, Eq, Structural, Debug)]
pub enum JobDiscipline {
    Programmer,
    Designer,
    Artist,
    Writer,
    Composer,
    Tester,
    Manager,
    Other,
}

pub open spec fn intern_phrases() -> Seq<Seq<char>> {
    views_of(
        seq![
            "intern",
            "internship",
            "co op",
            "coop",
            "grad",
            "graduate",
            "undergrad",
            "undergraduate",
            "thesis",
        ],
    )
}

pub open spec fn entry_phrases() -> Seq<Seq<char>> {
    views_of(seq!["entry", "associate", "junior", "jr"])
}

pub open spec fn mid_phrases() -> Seq<Seq<char>> {
    views_of(seq!["mid", "executive assistant"])
}

pub open spec fn senior_phrases() -> Seq<Seq<char>> {
    views_of(seq!["senior", "sr", "snr", "expert", "advance", "advanced", "principal", "staff"])
}

pub open spec fn lead_phrases() -> Seq<Seq<char>> {
    views_of(seq!["lead", "director", "president", "executive", "head", "architect"])
}

/// The level rule tables, first-match-wins: intern, entry, mid, senior,
/// lead; the default is `Mid`.
pub open spec fn level_of(t: Seq<char>) -> JobLevel {
    if matches_any(t, intern_phrases()) {
        JobLevel::Intern
    } else if matches_any(t, entry_phrases()) {
        JobLevel::Entry
    } else if matches_any(t, mid_phrases()) {
        JobLevel::Mid
    } else if matches_any(t, senior_phrases()) {
        JobLevel::Senior
    } else if matches_any(t, lead_phrases()) {
        JobLevel::Lead
    } else {
        JobLevel::Mid
    }
}

fn intern_list() -> (v: Vec<&'static str>)
    ensures
        views_of(v@) == intern_phrases(),
{
    let v: Vec<&'static str> = vec![
        "intern",
        "internship",
        "co op",
        "coop",
        "grad",
        "graduate",
        "undergrad",
        "undergraduate",
        "thesis",
    ];
    proof {
        assert(views_of(v@) =~= intern_phrases());
    }
    v
}

fn entry_list() -> (v: Vec<&'static str>)
    ensures
        views_of(v@) == entry_phrases(),
{
    let v: Vec<&'static str> = vec!["entry", "associate", "junior", "jr"];
    proof {
        assert(views_of(v@) =~= entry_phrases());
    }
    v
}

fn mid_list() -> (v: Vec<&'static str>)
    ensures
        views_of(v@) == mid_phrases(),
{
    let v: Vec<&'static str> = vec!["mid", "executive assistant"];
    proof {
        assert(views_of(v@) =~= mid_phrases());
    }
    v
}

fn senior_list() -> (v: Vec<&'static str>)
    ensures
        views_of(v@) == senior_phrases(),
{
    let v: Vec<&'static str> = vec![
        "senior",
        "sr",
        "snr",
        "expert",
        "advance",
        "advanced",
        "principal",
        "staff",
    ];
    proof {
        assert(views_of(v@) =~= senior_phrases());
    }
    v
}

fn lead_list() -> (v: Vec<&'static str>)
    ensures
        views_of(v@) == lead_phrases(),
{
    let v: Vec<&'static str> = vec!["lead", "director", "president", "executive", "head", "architect"];
    proof {
        assert(views_of(v@) =~= lead_phrases());
    }
    v
}

/// The level a normalized title classifies to.
pub fn parse_level(norm: &str) -> (r: JobLevel)
    ensures
        r == level_of(norm@),
{
    let t = str_chars(norm);
    if matches_any_exec(&t, &intern_list()) {
        JobLevel::Intern
    } else if matches_any_exec(&t, &entry_list()) {
        JobLevel::Entry
    } else if matches_any_exec(&t, &mid_list()) {
        JobLevel::Mid
    } else if matches_any_exec(&t, &senior_list()) {
        JobLevel::Senior
    } else if matches_any_exec(&t, &lead_list()) {
        JobLevel::Lead
    } else {
        JobLevel::Mid
    }
}

pub open spec fn automation_phrases() -> Seq<Seq<char>> {
    views_of(
        seq![
            "automation",
            "build",
            "release",
            "security",
            "devop",
            "devops",
            "test",
            "testing",
            "sdet",
            "reliability",
            "sre",
            "platform engineer",
            "platform engineering",
            "platforms engineer",
            "platforms engineering",
            "data engineer",
            "data engineering",
            "migration engineer",
            "migration engineering",
        ],
    )
}

pub open spec fn web_phrases() -> Seq<Seq<char>> {
    views_of(seq!["web", "frontend", "front end"])
}

pub open spec fn graphics_phrases() -> Seq<Seq<char>> {
    views_of(seq!["graphics", "rendering", "art", "technical artist"])
}

pub open spec fn animation_phrases() -> Seq<Seq<char>> {
    views_of(seq!["animation"])
}

pub open spec fn physics_phrases() -> Seq<Seq<char>> {
    views_of(seq!["physics"])
}

pub open spec fn audio_phrases() -> Seq<Seq<char>> {
    views_of(seq!["audio"])
}

pub open spec fn ai_strict_phrases() -> Seq<Seq<char>> {
    views_of(seq!["computer vision", "machine learning"])
}

pub open spec fn ui_phrases() -> Seq<Seq<char>> {
    views_of(seq!["ui", "ux", "user interface", "user experience"])
}

pub open spec fn network_phrases() -> Seq<Seq<char>> {
    views_of(seq!["network", "server", "service", "services", "backend"])
}

pub open spec fn engine_phrases() -> Seq<Seq<char>> {
    views_of(seq!["engine programmer", "tools", "technology"])
}

pub open spec fn gameplay_phrases() -> Seq<Seq<char>> {
    views_of(seq!["gameplay", "game", "unity", "unreal"])
}

pub open spec fn ai_loose_phrases() -> Seq<Seq<char>> {
    views_of(seq!["ai"])
}

/// The specialty rule tables, first-match-wins; a bare "ai" token is tried
/// only after every other category, so that it cannot shadow more specific
/// terms; the default is no specialty.
pub open spec fn specialty_of(t: Seq<char>) -> Option<JobSpecialty> {
    if matches_any(t, automation_phrases()) {
        Some(JobSpecialty::Automation)
    } else if matches_any(t, web_phrases()) {
        Some(JobSpecialty::Web)
    } else if matches_any(t, graphics_phrases()) {
        Some(JobSpecialty::Graphics)
    } else if matches_any(t, animation_phrases()) {
        Some(JobSpecialty::Animation)
    } else if matches_any(t, physics_phrases()) {
        Some(JobSpecialty::Physics)
    } else if matches_any(t, audio_phrases()) {
        Some(JobSpecialty::Audio)
    } else if matches_any(t, ai_strict_phrases()) {
        Some(JobSpecialty::Ai)
    } else if matches_any(t, ui_phrases()) {
        Some(JobSpecialty::Ui)
    } else if matches_any(t, network_phrases()) {
        Some(JobSpecialty::Network)
    } else if matches_any(t, engine_phrases()) {
        Some(JobSpecialty::Engine)
    } else if matches_any(t, gameplay_phrases()) {
        Some(JobSpecialty::Gameplay)
    } else if matches_any(t, ai_loose_phrases()) {
        Some(JobSpecialty::Ai)
    } else {
        None
    }
}

fn automation_list() -> (v: Vec<&'static str>)
    ensures
        views_of(v@) == automation_phrases(),
{
    let v: Vec<&'static str> = vec![
        "automation",
        "build",
        "release",
        "security",
        "devop",
        "devops",
        "test",
        "testing",
        "sdet",
        "reliability",
        "sre",
        "platform engineer",
        "platform engineering",
        "platforms engineer",
        "platforms engineering",
        "data engineer",
        "data engineering",
        "migration engineer",
        "migration engineering",
    ];
    proof {
        assert(views_of(v@) =~= automation_phrases());
    }
    v
}

fn web_list() -> (v: Vec<&'static str>)
    ensures
        views_of(v@) == web_phrases(),
{
    let v: Vec<&'static str> = vec!["web", "frontend", "front end"];
    proof {
        assert(views_of(v@) =~= web_phrases());
    }
    v
}

fn graphics_list() -> (v: Vec<&'static str>)
    ensures
        views_of(v@) == graphics_phrases(),
{
    let v: Vec<&'static str> = vec!["graphics", "rendering", "art", "technical artist"];
    proof {
        assert(views_of(v@) =~= graphics_phrases());
    }
    v
}

fn animation_list() -> (v: Vec<&'static str>)
    ensures
        views_of(v@) == animation_phrases(),
{
    let v: Vec<&'static str> = vec!["animation"];
    proof {
        assert(views_of(v@) =~= animation_phrases());
    }
    v
}

fn physics_list() -> (v: Vec<&'static str>)
    ensures
        views_of(v@) == physics_phrases(),
{
    let v: Vec<&'static str> = vec!["physics"];
    proof {
        assert(views_of(v@) =~= physics_phrases());
    }
    v
}

fn audio_list() -> (v: Vec<&'static str>)
    ensures
        views_of(v@) == audio_phrases(),
{
    let v: Vec<&'static str> = vec!["audio"];
    proof {
        assert(views_of(v@) =~= audio_phrases());
    }
    v
}

fn ai_strict_list() -> (v: Vec<&'static str>)
    ensures
        views_of(v@) == ai_strict_phrases(),
{
    let v: Vec<&'static str> = vec!["computer vision", "machine learning"];
    proof {
        assert(views_of(v@) =~= ai_strict_phrases());
    }
    v
}

fn ui_list() -> (v: Vec<&'static str>)
    ensures
        views_of(v@) == ui_phrases(),
{
    let v: Vec<&'static str> = vec!["ui", "ux", "user interface", "user experience"];
    proof {
        assert(views_of(v@) =~= ui_phrases());
    }
    v
}

fn network_list() -> (v: Vec<&'static str>)
    ensures
        views_of(v@) == network_phrases(),
{
    let v: Vec<&'static str> = vec!["network", "server", "service", "services", "backend"];
    proof {
        assert(views_of(v@) =~= network_phrases());
    }
    v
}

fn engine_list() -> (v: Vec<&'static str>)
    ensures
        views_of(v@) == engine_phrases(),
{
    let v: Vec<&'static str> = vec!["engine programmer", "tools", "technology"];
    proof {
        assert(views_of(v@) =~= engine_phrases());
    }
    v
}

fn gameplay_list() -> (v: Vec<&'static str>)
    ensures
        views_of(v@) == gameplay_phrases(),
{
    let v: Vec<&'static str> = vec!["gameplay", "game", "unity", "unreal"];
    proof {
        assert(views_of(v@) =~= gameplay_phrases());
    }
    v
}

fn ai_loose_list() -> (v: Vec<&'static str>)
    ensures
        views_of(v@) == ai_loose_phrases(),
{
    let v: Vec<&'static str> = vec!["ai"];
    proof {
        assert(views_of(v@) =~= ai_loose_phrases());
    }
    v
}

/// The specialty a normalized title classifies to, if any.
pub fn parse_specialty(norm: &str) -> (r: Option<JobSpecialty>)
    ensures
        r == specialty_of(norm@),
{
    let t = str_chars(norm);
    if matches_any_exec(&t, &automation_list()) {
        Some(JobSpecialty::Automation)
    } else if matches_any_exec(&t, &web_list()) {
        Some(JobSpecialty::Web)
    } else if matches_any_exec(&t, &graphics_list()) {
        Some(JobSpecialty::Graphics)
    } else if matches_any_exec(&t, &animation_list()) {
        Some(JobSpecialty::Animation)
    } else if matches_any_exec(&t, &physics_list()) {
        Some(JobSpecialty::Physics)
    } else if matches_any_exec(&t, &audio_list()) {
        Some(JobSpecialty::Audio)
    } else if matches_any_exec(&t, &ai_strict_list()) {
        Some(JobSpecialty::Ai)
    } else if matches_any_exec(&t, &ui_list()) {
        Some(JobSpecialty::Ui)
    } else if matches_any_exec(&t, &network_list()) {
        Some(JobSpecialty::Network)
    } else if matches_any_exec(&t, &engine_list()) {
        Some(JobSpecialty::Engine)
    } else if matches_any_exec(&t, &gameplay_list()) {
        Some(JobSpecialty::Gameplay)
    } else if matches_any_exec(&t, &ai_loose_list()) {
        Some(JobSpecialty::Ai)
    } else {
        None
    }
}

pub open spec fn manager_phrases() -> Seq<Seq<char>> {
    views_of(seq!["manager", "director", "president", "coordinator", "producer"])
}

pub open spec fn tester_phrases() -> Seq<Seq<char>> {
    views_of(seq!["tester", "qa", "quality engineer", "quality engineering"])
}

pub open spec fn known_other_phrases() -> Seq<Seq<char>> {
    views_of(
        seq![
            "bi engineer",
            "bi engineering",
            "support engineer",
            "support engineering",
            "privacy engineer",
            "privacy engineering",
            "facility engineer",
            "facility engineering",
            "mechatronics engineer",
            "mechatronics engineering",
            "enterprise solution engineer",
            "enterprise solution engineering",
            "it",
            "information technology",
            "hr",
            "human resource",
            "human resources",
            "representative",
        ],
    )
}

pub open spec fn programmer_phrases() -> Seq<Seq<char>> {
    views_of(
        seq![
            "programmer",
            "coder",
            "developer",
            "engineer",
            "engineering",
            "technical artist",
            "swe",
            "sre",
        ],
    )
}

pub open spec fn other_phrases() -> Seq<Seq<char>> {
    views_of(
        seq![
            "specialist",
            "researcher",
            "scientist",
            "analyst",
            "assistant",
            "responder",
            "publishing",
            "marketing",
            "support",
        ],
    )
}

pub open spec fn artist_phrases() -> Seq<Seq<char>> {
    views_of(seq!["artist", "animator", "modeler", "3d generalist"])
}

pub open spec fn writer_phrases() -> Seq<Seq<char>> {
    views_of(seq!["writer"])
}

pub open spec fn composer_phrases() -> Seq<Seq<char>> {
    views_of(seq!["composer"])
}

pub open spec fn designer_phrases() -> Seq<Seq<char>> {
    views_of(seq!["designer", "architect"])
}

pub open spec fn lead_fallback_phrases() -> Seq<Seq<char>> {
    views_of(seq!["lead", "head"])
}

pub open spec fn generalist_phrases() -> Seq<Seq<char>> {
    views_of(seq!["generalist"])
}

/// The discipline rule tables, first-match-wins: management cues dominate,
/// then testing, then known non-engineering "engineer" titles, then
/// programming, and so on; ambiguous "lead"/"head" titles fall back to
/// manager and a bare "generalist" to programmer; the default is `Other`.
pub open spec fn discipline_of(t: Seq<char>) -> JobDiscipline {
    if matches_any(t, manager_phrases()) {
        JobDiscipline::Manager
    } else if matches_any(t, tester_phrases()) {
        JobDiscipline::Tester
    } else if matches_any(t, known_other_phrases()) {
        JobDiscipline::Other
    } else if matches_any(t, programmer_phrases()) {
        JobDiscipline::Programmer
    } else if matches_any(t, other_phrases()) {
        JobDiscipline::Other
    } else if matches_any(t, artist_phrases()) {
        JobDiscipline::Artist
    } else if matches_any(t, writer_phrases()) {
        JobDiscipline::Writer
    } else if matches_any(t, composer_phrases()) {
        JobDiscipline::Composer
    } else if matches_any(t, designer_phrases()) {
        JobDiscipline::Designer
    } else if matches_any(t, lead_fallback_phrases()) {
        JobDiscipline::Manager
    } else if matches_any(t, generalist_phrases()) {
        JobDiscipline::Programmer
    } else {
        JobDiscipline::Other
    }
}

fn manager_list() -> (v: Vec<&'static str>)
    ensures
        views_of(v@) == manager_phrases(),
{
    let v: Vec<&'static str> = vec!["manager", "director", "president", "coordinator", "producer"];
    proof {
        assert(views_of(v@) =~= manager_phrases());
    }
    v
}

fn tester_list() -> (v: Vec<&'static str>)
    ensures
        views_of(v@) == tester_phrases(),
{
    let v: Vec<&'static str> = vec!["tester", "qa", "quality engineer", "quality engineering"];
    proof {
        assert(views_of(v@) =~= tester_phrases());
    }
    v
}

fn known_other_list() -> (v: Vec<&'static str>)
    ensures
        views_of(v@) == known_other_phrases(),
{
    let v: Vec<&'static str> = vec![
        "bi engineer",
        "bi engineering",
        "support engineer",
        "support engineering",
        "privacy engineer",
        "privacy engineering",
        "facility engineer",
        "facility engineering",
        "mechatronics engineer",
        "mechatronics engineering",
        "enterprise solution engineer",
        "enterprise solution engineering",
        "it",
        "information technology",
        "hr",
        "human resource",
        "human resources",
        "representative",
    ];
    proof {
        assert(views_of(v@) =~= known_other_phrases());
    }
    v
}

fn programmer_list() -> (v: Vec<&'static str>)
    ensures
        views_of(v@) == programmer_phrases(),
{
    let v: Vec<&'static str> = vec![
        "programmer",
        "coder",
        "developer",
        "engineer",
        "engineering",
        "technical artist",
        "swe",
        "sre",
    ];
    proof {
        assert(views_of(v@) =~= programmer_phrases());
    }
    v
}

fn other_list() -> (v: Vec<&'static str>)
    ensures
        views_of(v@) == other_phrases(),
{
    let v: Vec<&'static str> = vec![
        "specialist",
        "researcher",
        "scientist",
        "analyst",
        "assistant",
        "responder",
        "publishing",
        "marketing",
        "support",
    ];
    proof {
        assert(views_of(v@) =~= other_phrases());
    }
    v
}

fn artist_list() -> (v: Vec<&'static str>)
    ensures
        views_of(v@) == artist_phrases(),
{
    let v: Vec<&'static str> = vec!["artist", "animator", "modeler", "3d generalist"];
    proof {
        assert(views_of(v@) =~= artist_phrases());
    }
    v
}

fn writer_list() -> (v: Vec<&'static str>)
    ensures
        views_of(v@) == writer_phrases(),
{
    let v: Vec<&'static str> = vec!["writer"];
    proof {
        assert(views_of(v@) =~= writer_phrases());
    }
    v
}

fn composer_list() -> (v: Vec<&'static str>)
    ensures
        views_of(v@) == composer_phrases(),
{
    let v: Vec<&'static str> = vec!["composer"];
    proof {
        assert(views_of(v@) =~= composer_phrases());
    }
    v
}

fn designer_list() -> (v: Vec<&'static str>)
    ensures
        views_of(v@) == designer_phrases(),
{
    let v: Vec<&'static str> = vec!["designer", "architect"];
    proof {
        assert(views_of(v@) =~= designer_phrases());
    }
    v
}

fn lead_fallback_list() -> (v: Vec<&'static str>)
    ensures
        views_of(v@) == lead_fallback_phrases(),
{
    let v: Vec<&'static str> = vec!["lead", "head"];
    proof {
        assert(views_of(v@) =~= lead_fallback_phrases());
    }
    v
}

fn generalist_list() -> (v: Vec<&'static str>)
    ensures
        views_of(v@) == generalist_phrases(),
{
    let v: Vec<&'static str> = vec!["generalist"];
    proof {
        assert(views_of(v@) =~= generalist_phrases());
    }
    v
}

/// The discipline a normalized title classifies to.
pub fn parse_discipline(norm: &str) -> (r: JobDiscipline)
    ensures
        r == discipline_of(norm@),
{
    let t = str_chars(norm);
    if matches_any_exec(&t, &manager_list()) {
        JobDiscipline::Manager
    } else if matches_any_exec(&t, &tester_list()) {
        JobDiscipline::Tester
    } else if matches_any_exec(&t, &known_other_list()) {
        JobDiscipline::Other
    } else if matches_any_exec(&t, &programmer_list()) {
        JobDiscipline::Programmer
    } else if matches_any_exec(&t, &other_list()) {
        JobDiscipline::Other
    } else if matches_any_exec(&t, &artist_list()) {
        JobDiscipline::Artist
    } else if matches_any_exec(&t, &writer_list()) {
        JobDiscipline::Writer
    } else if matches_any_exec(&t, &composer_list()) {
        JobDiscipline::Composer
    } else if matches_any_exec(&t, &designer_list()) {
        JobDiscipline::Designer
    } else if matches_any_exec(&t, &lead_fallback_list()) {
        JobDiscipline::Manager
    } else if matches_any_exec(&t, &generalist_list()) {
        JobDiscipline::Programmer
    } else {
        JobDiscipline::Other
    }
}

pub open spec fn general_application_phrases() -> Seq<Seq<char>> {
    views_of(seq!["general application", "drop box"])
}

/// Whether a normalized title marks a catch-all application drop box rather
/// than a specific role.
pub open spec fn general_of(t: Seq<char>) -> bool {
    matches_any(t, general_application_phrases())
}

fn general_application_list() -> (v: Vec<&'static str>)
    ensures
        views_of(v@) == general_application_phrases(),
{
    let v: Vec<&'static str> = vec!["general application", "drop box"];
    proof {
        assert(views_of(v@) =~= general_application_phrases());
    }
    v
}

/// Whether a normalized title marks a general application drop box.
pub fn parse_is_general_application(norm: &str) -> (r: bool)
    ensures
        r == general_of(norm@),
{
    let t = str_chars(norm);
    matches_any_exec(&t, &general_application_list())
}

/// Classification depends only on the title text: equal normalized titles
/// classify to equal attributes on every rule set.
pub proof fn lemma_classification_deterministic(a: Seq<char>, b: Seq<char>)
    requires
        a == b,
    ensures
        level_of(a) == level_of(b),
        specialty_of(a) == specialty_of(b),
        discipline_of(a) == discipline_of(b),
        general_of(a) == general_of(b),
{
}

/// Scores are scaled by this factor.
pub const SCORE_SCALE: i32 = 10;

/// Penalty applied when a posting is a general application drop box.
pub const GENERAL_APPLICATION_WEIGHT: i32 = -10;

pub const INTERN_WEIGHT: i32 = -1000;

pub const ENTRY_WEIGHT: i32 = 10;

pub const MID_WEIGHT: i32 = 0;

pub const SENIOR_WEIGHT: i32 = -500;

pub const LEAD_WEIGHT: i32 = -1000;

pub const PROGRAMMER_WEIGHT: i32 = 100;

pub const DESIGNER_WEIGHT: i32 = -105;

pub const ARTIST_WEIGHT: i32 = -105;

pub const WRITER_WEIGHT: i32 = -110;

pub const COMPOSER_WEIGHT: i32 = -110;

pub const TESTER_WEIGHT: i32 = -125;

pub const MANAGER_WEIGHT: i32 = -150;

pub const OTHER_WEIGHT: i32 = -110;

pub const GAMEPLAY_WEIGHT: i32 = 100;

pub const GRAPHICS_WEIGHT: i32 = 1;

pub const ENGINE_WEIGHT: i32 = 1;

pub const PHYSICS_WEIGHT: i32 = -5;

pub const ANIMATION_WEIGHT: i32 = -100;

pub const AI_WEIGHT: i32 = -100;

pub const AUDIO_WEIGHT: i32 = -110;

pub const UI_WEIGHT: i32 = -120;

pub const NETWORK_WEIGHT: i32 = -150;

pub const AUTOMATION_WEIGHT: i32 = -150;

pub const WEB_WEIGHT: i32 = -150;

/// Timestamps are day numbers and must stay within this bound, so that
/// differences of any two of them fit in an `i64`.
pub const DAY_LIMIT: i64 = 1_000_000_000;

/// A day number small enough that arithmetic on it cannot overflow.
pub open spec fn day_in_range(d: int) -> bool {
    -(DAY_LIMIT as int) <= d <= DAY_LIMIT as int
}

pub open spec fn level_weight(l: JobLevel) -> int {
    match l {
        JobLevel::Intern => INTERN_WEIGHT as int,
        JobLevel::Entry => ENTRY_WEIGHT as int,
        JobLevel::Mid => MID_WEIGHT as int,
        JobLevel::Senior => SENIOR_WEIGHT as int,
        JobLevel::Lead => LEAD_WEIGHT as int,
    }
}

pub open spec fn discipline_weight(d: JobDiscipline) -> int {
    match d {
        JobDiscipline::Programmer => PROGRAMMER_WEIGHT as int,
        JobDiscipline::Designer => DESIGNER_WEIGHT as int,
        JobDiscipline::Artist => ARTIST_WEIGHT as int,
        JobDiscipline::Writer => WRITER_WEIGHT as int,
        JobDiscipline::Composer => COMPOSER_WEIGHT as int,
        JobDiscipline::Tester => TESTER_WEIGHT as int,
        JobDiscipline::Manager => MANAGER_WEIGHT as int,
        JobDiscipline::Other => OTHER_WEIGHT as int,
    }
}

pub open spec fn specialty_weight(s: Option<JobSpecialty>) -> int {
    match s {
        Some(JobSpecialty::Gameplay) => GAMEPLAY_WEIGHT as int,
        Some(JobSpecialty::Graphics) => GRAPHICS_WEIGHT as int,
        Some(JobSpecialty::Engine) => ENGINE_WEIGHT as int,
        Some(JobSpecialty::Physics) => PHYSICS_WEIGHT as int,
        Some(JobSpecialty::Animation) => ANIMATION_WEIGHT as int,
        Some(JobSpecialty::Ai) => AI_WEIGHT as int,
        Some(JobSpecialty::Audio) => AUDIO_WEIGHT as int,
        Some(JobSpecialty::Ui) => UI_WEIGHT as int,
        Some(JobSpecialty::Network) => NETWORK_WEIGHT as int,
        Some(JobSpecialty::Automation) => AUTOMATION_WEIGHT as int,
        Some(JobSpecialty::Web) => WEB_WEIGHT as int,
        None => 0,
    }
}

/// The mathematical value of a posting.
pub struct JobView {
    pub id: Seq<char>,
    pub source: Seq<char>,
    pub company: Seq<char>,
    pub url: Seq<char>,
    pub title: Seq<char>,
    pub level: JobLevel,
    pub specialty: Option<JobSpecialty>,
    pub discipline: JobDiscipline,
    pub is_general_application: bool,
    pub first_seen: int,
    pub missing_since: Option<int>,
}

/// The desirability score of a posting with the given attributes: the sum of
/// the weights its attributes carry, scaled by `SCORE_SCALE`.
pub open spec fn score_spec(j: JobView) -> int {
    (SCORE_SCALE as int) * ((if j.is_general_application {
        GENERAL_APPLICATION_WEIGHT as int
    } else {
        0
    }) + level_weight(j.level) + discipline_weight(j.discipline) + specialty_weight(j.specialty))
}

/// A discovered job posting, classified from its title, with its lifecycle
/// fields.
#[derive(Debug)]
pub struct Job {
    /// The stable identity of the posting within its source.
    pub id: String,
    /// The name of the source where the job was found.
    pub source: String,
    /// The name of the company offering the job.
    pub company: String,
    /// The URL of the job page.
    pub url: String,
    /// The job title.
    pub title: String,
    /// The job level (entry, mid, senior, etc.).
    pub level: JobLevel,
    /// The job specialty (graphics, audio, AI, etc.), when one is named.
    pub specialty: Option<JobSpecialty>,
    /// The job discipline (programmer, artist, writer, etc.).
    pub discipline: JobDiscipline,
    /// True if the job is an application drop box, not a real opening.
    pub is_general_application: bool,
    /// The day when the job was first found; never changed afterwards.
    pub first_seen: i64,
    /// The day when the job went missing from its source, if it has.
    pub missing_since: Option<i64>,
}

impl View for Job {
    type V = JobView;

    open spec fn view(&self) -> JobView {
        JobView {
            id: self.id@,
            source: self.source@,
            company: self.company@,
            url: self.url@,
            title: self.title@,
            level: self.level,
            specialty: self.specialty,
            discipline: self.discipline,
            is_general_application: self.is_general_application,
            first_seen: self.first_seen as int,
            missing_since: match self.missing_since {
                Some(t) => Some(t as int),
                None => None,
            },
        }
    }
}

/// A posting with its classification recomputed from its stored title; the
/// identity and lifecycle fields are untouched.
pub open spec fn reparse_view(j: JobView) -> JobView {
    JobView {
        level: level_of(norm_spec(j.title)),
        specialty: specialty_of(norm_spec(j.title)),
        discipline: discipline_of(norm_spec(j.title)),
        is_general_application: general_of(norm_spec(j.title)),
        ..j
    }
}

impl Job {
    /// A new posting first seen on day `now`, classified from its title.
    pub fn new(id: String, source: String, company: String, url: String, title: String, now: i64) -> (j: Job)
        ensures
            j@.id == id@,
            j@.source == source@,
            j@.company == company@,
            j@.url == url@,
            j@.title == title@,
            j@.level == level_of(norm_spec(title@)),
            j@.specialty == specialty_of(norm_spec(title@)),
            j@.discipline == discipline_of(norm_spec(title@)),
            j@.is_general_application == general_of(norm_spec(title@)),
            j@.first_seen == now as int,
            j@.missing_since is None,
    {
        let norm = normalized(title.as_str());
        let level = parse_level(norm.as_str());
        let specialty = parse_specialty(norm.as_str());
        let discipline = parse_discipline(norm.as_str());
        let is_general_application = parse_is_general_application(norm.as_str());
        Job {
            id,
            source,
            company,
            url,
            title,
            level,
            specialty,
            discipline,
            is_general_application,
            first_seen: now,
            missing_since: None,
        }
    }

    /// Recomputes the classification from the stored title, leaving identity
    /// and lifecycle fields untouched. Useful when the rule tables change.
    pub fn reparse(&mut self)
        ensures
            final(self)@ == reparse_view(old(self)@),
    {
        let norm = normalized(self.title.as_str());
        self.level = parse_level(norm.as_str());
        self.specialty = parse_specialty(norm.as_str());
        self.discipline = parse_discipline(norm.as_str());
        self.is_general_application = parse_is_general_application(norm.as_str());
    }

    /// The desirability score of this posting under the fixed weight table.
    pub fn score(&self) -> (s: i32)
        ensures
            s == score_spec(self@),
    {
        let mut score: i32 = 0;
        if self.is_general_application {
            score = score + GENERAL_APPLICATION_WEIGHT;
        }
        score = score + match self.level {
            JobLevel::Intern => INTERN_WEIGHT,
            JobLevel::Entry => ENTRY_WEIGHT,
            JobLevel::Mid => MID_WEIGHT,
            JobLevel::Senior => SENIOR_WEIGHT,
            JobLevel::Lead => LEAD_WEIGHT,
        };
        score = score + match self.discipline {
            JobDiscipline::Programmer => PROGRAMMER_WEIGHT,
            JobDiscipline::Designer => DESIGNER_WEIGHT,
            JobDiscipline::Artist => ARTIST_WEIGHT,
            JobDiscipline::Writer => WRITER_WEIGHT,
            JobDiscipline::Composer => COMPOSER_WEIGHT,
            JobDiscipline::Tester => TESTER_WEIGHT,
            JobDiscipline::Manager => MANAGER_WEIGHT,
            JobDiscipline::Other => OTHER_WEIGHT,
        };
        score = score + match self.specialty {
            Some(JobSpecialty::Gameplay) => GAMEPLAY_WEIGHT,
            Some(JobSpecialty::Graphics) => GRAPHICS_WEIGHT,
            Some(JobSpecialty::Engine) => ENGINE_WEIGHT,
            Some(JobSpecialty::Physics) => PHYSICS_WEIGHT,
            Some(JobSpecialty::Animation) => ANIMATION_WEIGHT,
            Some(JobSpecialty::Ai) => AI_WEIGHT,
            Some(JobSpecialty::Audio) => AUDIO_WEIGHT,
            Some(JobSpecialty::Ui) => UI_WEIGHT,
            Some(JobSpecialty::Network) => NETWORK_WEIGHT,
            Some(JobSpecialty::Automation) => AUTOMATION_WEIGHT,
            Some(JobSpecialty::Web) => WEB_WEIGHT,
            None => 0,
        };
        SCORE_SCALE * score
    }

    /// Whether this posting counts as desirable: its score is above zero.
    pub fn is_desirable(&self) -> (b: bool)
        ensures
            b == (score_spec(self@) > 0),
    {
        self.score() > 0
    }

    /// An identical copy of this posting.
    pub fn duplicate(&self) -> (j: Job)
        ensures
            j@ == self@,
    {
        Job {
            id: self.id.clone(),
            source: self.source.clone(),
            company: self.company.clone(),
            url: self.url.clone(),
            title: self.title.clone(),
            level: self.level,
            specialty: self.specialty,
            discipline: self.discipline,
            is_general_application: self.is_general_application,
            first_seen: self.first_seen,
            missing_since: self.missing_since,
        }
    }
}

/// A posting that is not classified as a programmer role and names no
/// specialty cannot score above zero under the fixed weight table.
pub proof fn lemma_non_programmer_scores_nonpositive(j: JobView)
    requires
        j.discipline != JobDiscipline::Programmer,
        j.specialty is None,
    ensures
        score_spec(j) <= 0,
{
}

} // verus!
