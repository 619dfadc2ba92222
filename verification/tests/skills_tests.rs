//! Skill description extraction and prompt summary tests.

use icrab::skills::{build_skills_summary, extract_description, SkillInfo, MAX_DESC_LEN};

#[test]
fn extract_description_empty() {
    assert_eq!(extract_description(""), "(no description)");
}

#[test]
fn extract_description_lowercase() {
    assert_eq!(extract_description("description: Get the weather."), "Get the weather.");
}

#[test]
fn extract_description_case_insensitive() {
    assert_eq!(extract_description("Description: Get the weather."), "Get the weather.");
}

#[test]
fn extract_description_first_paragraph() {
    assert_eq!(extract_description("\nGet current weather.\n\nMore text"), "Get current weather.");
}

#[test]
fn extract_description_first_paragraph_single_line() {
    assert_eq!(extract_description("# Weather\n\nGet current weather.\n"), "# Weather");
}

#[test]
fn extract_description_truncate() {
    let long = "a".repeat(300);
    let out = extract_description(&format!("description: {}", long));
    assert!(out.len() <= MAX_DESC_LEN + 3);
    assert!(out.ends_with("..."));
}

#[test]
fn extract_description_joins_paragraph_lines() {
    assert_eq!(extract_description("first line\nsecond line\n\nrest"), "first line second line");
}

#[test]
fn skills_summary_line_shape() {
    let skills = vec![SkillInfo {
        name: "weather".to_string(),
        relative_path: "skills/weather/SKILL.md".to_string(),
        description: "Get current weather.".to_string(),
    }];
    let s = build_skills_summary(&skills);
    assert_eq!(s, "- **weather** — Get current weather. Read skills/weather/SKILL.md to use.");
}

#[test]
fn skills_summary_adds_period_when_needed() {
    let skills = vec![SkillInfo {
        name: "notes".to_string(),
        relative_path: "skills/notes/SKILL.md".to_string(),
        description: "Take notes".to_string(),
    }];
    let s = build_skills_summary(&skills);
    assert_eq!(s, "- **notes** — Take notes. Read skills/notes/SKILL.md to use.");
}

#[test]
fn skills_summary_empty() {
    let skills: Vec<SkillInfo> = Vec::new();
    assert_eq!(build_skills_summary(&skills), "");
}
