use find_a_job::job::parse_discipline;
use find_a_job::job::parse_is_general_application;
use find_a_job::job::parse_level;
use find_a_job::job::parse_specialty;
use find_a_job::job::JobDiscipline;
use find_a_job::job::JobLevel;
use find_a_job::job::JobSpecialty;
use find_a_job::text::normalized;

fn cases() -> Vec<(&'static str, JobLevel, Option<JobSpecialty>, JobDiscipline)> {
    vec![
        (
            "Software Engineer Intern - Automation",
            JobLevel::Intern,
            Some(JobSpecialty::Automation),
            JobDiscipline::Programmer,
        ),
        (
            "Software Engineer Co-op/Internship (FC) - Summer 2025",
            JobLevel::Intern,
            None,
            JobDiscipline::Programmer,
        ),
        (
            "Software Engineer Co-Op (Fall 2025)",
            JobLevel::Intern,
            None,
            JobDiscipline::Programmer,
        ),
        (
            "Tools Engineer Co-Op- 4 Month Summer 2025 (Apex Legends)",
            JobLevel::Intern,
            Some(JobSpecialty::Engine),
            JobDiscipline::Programmer,
        ),
        (
            "PhD Software Engineer Intern",
            JobLevel::Intern,
            None,
            JobDiscipline::Programmer,
        ),
        (
            "2K Games Dublin - Publishing Graduate Programme",
            JobLevel::Intern,
            None,
            JobDiscipline::Other,
        ),
        (
            "Intern - World Designer",
            JobLevel::Intern,
            None,
            JobDiscipline::Designer,
        ),
        (
            "Senior Software Development Engineer in Test",
            JobLevel::Senior,
            Some(JobSpecialty::Automation),
            JobDiscipline::Programmer,
        ),
        (
            "Sr Advanced Online/Network Software Engineer - American Football",
            JobLevel::Senior,
            Some(JobSpecialty::Network),
            JobDiscipline::Programmer,
        ),
        (
            "Principal Game Software Engineer (Apex Legends)",
            JobLevel::Senior,
            Some(JobSpecialty::Gameplay),
            JobDiscipline::Programmer,
        ),
        (
            "Senior/Lead C++ Software Engineer (Generalist - Game Modes) - American Football",
            JobLevel::Senior,
            Some(JobSpecialty::Gameplay),
            JobDiscipline::Programmer,
        ),
        (
            "Senior/Principal Software Engineer - Cell Lifecycle",
            JobLevel::Senior,
            None,
            JobDiscipline::Programmer,
        ),
        (
            "(Senior) Server Engineer",
            JobLevel::Senior,
            Some(JobSpecialty::Network),
            JobDiscipline::Programmer,
        ),
        (
            "Principal Software Engineer , Graphics | Diablo IV | Albany, NY OR Irvine, CA",
            JobLevel::Senior,
            Some(JobSpecialty::Graphics),
            JobDiscipline::Programmer,
        ),
        (
            "Staff Software Engineer (Build Platforms) - VALORANT, Foundations",
            JobLevel::Senior,
            Some(JobSpecialty::Automation),
            JobDiscipline::Programmer,
        ),
        (
            "Expert Gameplay Animation Engineer",
            JobLevel::Senior,
            Some(JobSpecialty::Animation),
            JobDiscipline::Programmer,
        ),
        (
            "Expert Backend Engineer",
            JobLevel::Senior,
            Some(JobSpecialty::Network),
            JobDiscipline::Programmer,
        ),
        (
            "Advanced Software Engineer",
            JobLevel::Senior,
            None,
            JobDiscipline::Programmer,
        ),
        (
            "PROGRAMMING - Senior Programmer - General",
            JobLevel::Senior,
            None,
            JobDiscipline::Programmer,
        ),
        (
            "Graphics Programmer (Staff/Senior)",
            JobLevel::Senior,
            Some(JobSpecialty::Graphics),
            JobDiscipline::Programmer,
        ),
        (
            "Software Engineer Lead (Live Technical Support)",
            JobLevel::Lead,
            None,
            JobDiscipline::Programmer,
        ),
        (
            "Lead Software Engineer - Frostbite",
            JobLevel::Lead,
            None,
            JobDiscipline::Programmer,
        ),
        (
            "Unity UI Engineer - Unannounced Project",
            JobLevel::Mid,
            Some(JobSpecialty::Ui),
            JobDiscipline::Programmer,
        ),
        (
            "AI/Gameplay Programmer (Mid / Senior Level)",
            JobLevel::Mid,
            Some(JobSpecialty::Gameplay),
            JobDiscipline::Programmer,
        ),
        (
            "UI Programmer (C++)",
            JobLevel::Mid,
            Some(JobSpecialty::Ui),
            JobDiscipline::Programmer,
        ),
        (
            "Tools Automation Programmer",
            JobLevel::Mid,
            Some(JobSpecialty::Automation),
            JobDiscipline::Programmer,
        ),
        (
            "Animation R&D Programmer",
            JobLevel::Mid,
            Some(JobSpecialty::Animation),
            JobDiscipline::Programmer,
        ),
        (
            "UI Tools Programmer",
            JobLevel::Mid,
            Some(JobSpecialty::Ui),
            JobDiscipline::Programmer,
        ),
        (
            "Technical Artist",
            JobLevel::Mid,
            Some(JobSpecialty::Graphics),
            JobDiscipline::Programmer,
        ),
        (
            "Physics Programmer",
            JobLevel::Mid,
            Some(JobSpecialty::Physics),
            JobDiscipline::Programmer,
        ),
        (
            "Animation Programmer",
            JobLevel::Mid,
            Some(JobSpecialty::Animation),
            JobDiscipline::Programmer,
        ),
        (
            "Unreal Automation Engineer",
            JobLevel::Mid,
            Some(JobSpecialty::Automation),
            JobDiscipline::Programmer,
        ),
        (
            "Unreal UI Engineer",
            JobLevel::Mid,
            Some(JobSpecialty::Ui),
            JobDiscipline::Programmer,
        ),
        (
            "Engine Programmer",
            JobLevel::Mid,
            Some(JobSpecialty::Engine),
            JobDiscipline::Programmer,
        ),
        (
            "Graphics Programmer",
            JobLevel::Mid,
            Some(JobSpecialty::Graphics),
            JobDiscipline::Programmer,
        ),
        (
            "Tools Engineer (Retro Studios)",
            JobLevel::Mid,
            Some(JobSpecialty::Engine),
            JobDiscipline::Programmer,
        ),
        (
            "Technology Engineer [Remote Contract] (Retro Studios)",
            JobLevel::Mid,
            Some(JobSpecialty::Engine),
            JobDiscipline::Programmer,
        ),
        (
            "Network Engineer",
            JobLevel::Mid,
            Some(JobSpecialty::Network),
            JobDiscipline::Programmer,
        ),
        (
            "Audio Software Engineer",
            JobLevel::Mid,
            Some(JobSpecialty::Audio),
            JobDiscipline::Programmer,
        ),
        (
            "Computer Vision Software Engineer",
            JobLevel::Mid,
            Some(JobSpecialty::Ai),
            JobDiscipline::Programmer,
        ),
        (
            "Architect (Unreal Engine)",
            JobLevel::Lead,
            Some(JobSpecialty::Gameplay),
            JobDiscipline::Designer,
        ),
        (
            "Director of Engineering",
            JobLevel::Lead,
            None,
            JobDiscipline::Manager,
        ),
        (
            "Vice President, Global Services",
            JobLevel::Lead,
            Some(JobSpecialty::Network),
            JobDiscipline::Manager,
        ),
        (
            "UGX -Technical Director",
            JobLevel::Lead,
            None,
            JobDiscipline::Manager,
        ),
        (
            "Technical Lead - Maxis",
            JobLevel::Lead,
            None,
            JobDiscipline::Manager,
        ),
        (
            "Technical Director of Gameplay",
            JobLevel::Lead,
            Some(JobSpecialty::Gameplay),
            JobDiscipline::Manager,
        ),
        (
            "Executive Producer",
            JobLevel::Lead,
            None,
            JobDiscipline::Manager,
        ),
        (
            "Head of Infrastructure - Monopoly GO!",
            JobLevel::Lead,
            None,
            JobDiscipline::Manager,
        ),
        (
            "Systems Designer (Senior)",
            JobLevel::Senior,
            None,
            JobDiscipline::Designer,
        ),
        (
            "Expert Gameplay Animator - Infinity Ward",
            JobLevel::Senior,
            Some(JobSpecialty::Gameplay),
            JobDiscipline::Artist,
        ),
        (
            "Sr. Manager, Software Engineering - Player Platform SDK",
            JobLevel::Senior,
            None,
            JobDiscipline::Manager,
        ),
        (
            "Sr BI Engineer, Amazon Games",
            JobLevel::Senior,
            None,
            JobDiscipline::Other,
        ),
        (
            "Site Reliability Engineer",
            JobLevel::Mid,
            Some(JobSpecialty::Automation),
            JobDiscipline::Programmer,
        ),
        (
            "Manager, Software Engineering - League of Legends, Hextech Engine",
            JobLevel::Mid,
            None,
            JobDiscipline::Manager,
        ),
        ("Dev QA Tester", JobLevel::Mid, None, JobDiscipline::Tester),
        ("QA Tester", JobLevel::Mid, None, JobDiscipline::Tester),
        (
            "User Experience Researcher, Shared Development Services",
            JobLevel::Mid,
            Some(JobSpecialty::Ui),
            JobDiscipline::Other,
        ),
        (
            "Art Director",
            JobLevel::Lead,
            Some(JobSpecialty::Graphics),
            JobDiscipline::Manager,
        ),
        (
            "Technical Stage Manager",
            JobLevel::Mid,
            None,
            JobDiscipline::Manager,
        ),
        (
            "Associate Manager, Global Social Media Marketing - NBA 2K",
            JobLevel::Entry,
            None,
            JobDiscipline::Manager,
        ),
        ("Data Scientist", JobLevel::Mid, None, JobDiscipline::Other),
        (
            "Platforms Engineer",
            JobLevel::Mid,
            Some(JobSpecialty::Automation),
            JobDiscipline::Programmer,
        ),
        (
            "Application Security Specialist",
            JobLevel::Mid,
            Some(JobSpecialty::Automation),
            JobDiscipline::Other,
        ),
        (
            "Incident Responder",
            JobLevel::Mid,
            None,
            JobDiscipline::Other,
        ),
        (
            "Gameplay Designer",
            JobLevel::Mid,
            Some(JobSpecialty::Gameplay),
            JobDiscipline::Designer,
        ),
        (
            "Data Analytics Tester (3mos) Contract",
            JobLevel::Mid,
            None,
            JobDiscipline::Tester,
        ),
        (
            "Test Manager",
            JobLevel::Mid,
            Some(JobSpecialty::Automation),
            JobDiscipline::Manager,
        ),
        (
            "People Operations Coordinator",
            JobLevel::Mid,
            None,
            JobDiscipline::Manager,
        ),
        (
            "Environment Artist",
            JobLevel::Mid,
            None,
            JobDiscipline::Artist,
        ),
        (
            "Writer (12 month contract)",
            JobLevel::Mid,
            None,
            JobDiscipline::Writer,
        ),
        (
            "Executive Assistant",
            JobLevel::Mid,
            None,
            JobDiscipline::Other,
        ),
        (
            "Materials Artist, NBA 2K",
            JobLevel::Mid,
            None,
            JobDiscipline::Artist,
        ),
        ("Animator", JobLevel::Mid, None, JobDiscipline::Artist),
        ("Data Analyst 2", JobLevel::Mid, None, JobDiscipline::Other),
        (
            "Application Security Engineer",
            JobLevel::Mid,
            Some(JobSpecialty::Automation),
            JobDiscipline::Programmer,
        ),
        (
            "Software Developer in Test - Gram Games",
            JobLevel::Mid,
            Some(JobSpecialty::Automation),
            JobDiscipline::Programmer,
        ),
        (
            "Level Designer",
            JobLevel::Mid,
            None,
            JobDiscipline::Designer,
        ),
        (
            "Systems Designer - Sledgehammer Games Toronto",
            JobLevel::Mid,
            None,
            JobDiscipline::Designer,
        ),
        (
            "DevOps Engineer (Kubernetes & Cloud Services)",
            JobLevel::Mid,
            Some(JobSpecialty::Automation),
            JobDiscipline::Programmer,
        ),
        (
            "Machine Learning Engineer",
            JobLevel::Mid,
            Some(JobSpecialty::Ai),
            JobDiscipline::Programmer,
        ),
        (
            "Gameplay Engineer",
            JobLevel::Mid,
            Some(JobSpecialty::Gameplay),
            JobDiscipline::Programmer,
        ),
        (
            "Gameplay Engineer - High Moon Studios",
            JobLevel::Mid,
            Some(JobSpecialty::Gameplay),
            JobDiscipline::Programmer,
        ),
        (
            "Gameplay Programmer",
            JobLevel::Mid,
            Some(JobSpecialty::Gameplay),
            JobDiscipline::Programmer,
        ),
        (
            "Game Programmer",
            JobLevel::Mid,
            Some(JobSpecialty::Gameplay),
            JobDiscipline::Programmer,
        ),
        (
            "Software Engineer, Gameplay",
            JobLevel::Mid,
            Some(JobSpecialty::Gameplay),
            JobDiscipline::Programmer,
        ),
        (
            "Software Engineer",
            JobLevel::Mid,
            None,
            JobDiscipline::Programmer,
        ),
        (
            "Software Development Engineer (Cardset)",
            JobLevel::Mid,
            None,
            JobDiscipline::Programmer,
        ),
        (
            "Software Development Engineer (Server Developer)",
            JobLevel::Mid,
            Some(JobSpecialty::Network),
            JobDiscipline::Programmer,
        ),
        (
            "Associate Software Engineer",
            JobLevel::Entry,
            None,
            JobDiscipline::Programmer,
        ),
        (
            "Game Development Software Engineer",
            JobLevel::Mid,
            Some(JobSpecialty::Gameplay),
            JobDiscipline::Programmer,
        ),
        (
            "Software Engineering",
            JobLevel::Mid,
            None,
            JobDiscipline::Programmer,
        ),
        ("Modeler", JobLevel::Mid, None, JobDiscipline::Artist),
        (
            "FrontEnd Web Developer - EA Sports College Football (12 month temporary contract)",
            JobLevel::Mid,
            Some(JobSpecialty::Web),
            JobDiscipline::Programmer,
        ),
    ]
}

#[test]
fn level() {
    for (title, level, _, _) in cases() {
        assert_eq!(parse_level(&normalized(title)), level, "{}", title);
    }
}

#[test]
fn specialty() {
    for (title, _, specialty, _) in cases() {
        assert_eq!(parse_specialty(&normalized(title)), specialty, "{}", title);
    }
}

#[test]
fn discipline() {
    for (title, _, _, discipline) in cases() {
        assert_eq!(
            parse_discipline(&normalized(title)),
            discipline,
            "{}",
            title
        );
    }
}

#[test]
fn is_general_application() {
    for s in ["Engineering Application Drop Box", "General Application"] {
        assert!(parse_is_general_application(&normalized(s)), "{}", s);
    }
}

#[test]
fn normalized_strips_and_collapses() {
    assert_eq!(
        normalized("Software Engineer Co-op/Internship (FC) - Summer 2025"),
        "software engineer co op internship fc summer 2025"
    );
    assert_eq!(normalized("  UGX -Technical Director  "), "ugx technical director");
    assert_eq!(normalized(""), "");
    assert_eq!(normalized("!!! ... ---"), "");
}

#[test]
fn normalized_keeps_every_letter_and_digit() {
    assert_eq!(normalized("Ingénieur Sénior"), "ingénieur sénior");
    assert_eq!(normalized("Müller & Söhne"), "müller söhne");
    assert_eq!(normalized("ÉTÉ 2025"), "été 2025");
    assert_eq!(normalized("GROẞ"), "groß");
}

#[test]
fn normalize_is_idempotent_on_samples() {
    let samples = [
        "Software Engineer Co-op/Internship (FC) - Summer 2025",
        "",
        "!!!",
        "  many   spaces\tand\nbreaks  ",
        "Düsseldorf Développeur",
        "already normalized text",
    ];
    for s in samples {
        let once = normalized(s);
        assert_eq!(normalized(&once), once, "{}", s);
    }
}

#[test]
fn classifier_is_total_on_degenerate_titles() {
    for s in ["", "???", "日本語のタイトル", "    ", "\u{0}\u{7f}"] {
        let norm = normalized(s);
        let _ = parse_level(&norm);
        let _ = parse_specialty(&norm);
        let _ = parse_discipline(&norm);
        let _ = parse_is_general_application(&norm);
    }
    assert_eq!(parse_level(&normalized("")), JobLevel::Mid);
    assert_eq!(parse_specialty(&normalized("")), None);
    assert_eq!(parse_discipline(&normalized("")), JobDiscipline::Other);
    assert!(!parse_is_general_application(&normalized("")));
}

#[test]
fn classifier_is_deterministic() {
    let norm = normalized("Senior Software Development Engineer in Test");
    assert_eq!(parse_level(&norm), parse_level(&norm));
    assert_eq!(parse_specialty(&norm), parse_specialty(&norm));
    assert_eq!(parse_discipline(&norm), parse_discipline(&norm));
    assert_eq!(
        parse_is_general_application(&norm),
        parse_is_general_application(&norm)
    );
}

#[test]
fn management_cue_dominates_engineering() {
    let norm = normalized("Director of Engineering");
    assert_eq!(parse_discipline(&norm), JobDiscipline::Manager);
    assert_eq!(parse_level(&norm), JobLevel::Lead);
}

#[test]
fn senior_sdet_classifies_fully() {
    let norm = normalized("Senior Software Development Engineer in Test");
    assert_eq!(parse_level(&norm), JobLevel::Senior);
    assert_eq!(parse_specialty(&norm), Some(JobSpecialty::Automation));
    assert_eq!(parse_discipline(&norm), JobDiscipline::Programmer);
}
