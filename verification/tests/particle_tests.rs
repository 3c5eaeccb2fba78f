use colorify::particle::{
    match_mapping, match_script_text, particle_command, particle_function_texts, particle_mode,
    particle_plane, pid_of, ParticleMapping, ParticleMode,
};

fn maps() -> Vec<ParticleMapping> {
    vec![
        ParticleMapping { r: 10, g: 10, b: 10, id: "a:one".to_string() },
        ParticleMapping { r: 20, g: 20, b: 20, id: "a:two".to_string() },
        ParticleMapping { r: 15, g: 15, b: 15, id: "a:three".to_string() },
    ]
}

#[test]
fn nearest_mapping_within_thirty() {
    assert_eq!(match_mapping([19, 20, 21], &maps()), Some(1));
    assert_eq!(match_mapping([200, 200, 200], &maps()), None);
    assert_eq!(match_mapping([40, 20, 20], &maps()), Some(1));
    assert_eq!(match_mapping([51, 20, 20], &maps()), None);
}

#[test]
fn first_of_equally_near_mappings() {
    // 15,15,15 is 15 from the first two and on the third
    assert_eq!(match_mapping([15, 15, 15], &maps()), Some(2));
    let two = vec![
        ParticleMapping { r: 0, g: 0, b: 0, id: "a".to_string() },
        ParticleMapping { r: 10, g: 0, b: 0, id: "b".to_string() },
    ];
    assert_eq!(match_mapping([5, 0, 0], &two), Some(0));
}

#[test]
fn no_mappings_no_match() {
    assert_eq!(match_mapping([0, 0, 0], &[]), None);
}

#[test]
fn particle_ids() {
    assert_eq!(pid_of(Some(1), &maps()), "a:two");
    assert_eq!(pid_of(None, &maps()), "comeix:dust");
}

#[test]
fn modes() {
    assert_eq!(particle_mode(false, "DuSt"), ParticleMode::Dust);
    assert_eq!(particle_mode(true, "dust"), ParticleMode::Match);
    assert_eq!(particle_mode(false, "match"), ParticleMode::Match);
    assert_eq!(particle_mode(false, "dusty"), ParticleMode::Match);
}

#[test]
fn planes() {
    assert_eq!(particle_plane("xOy"), 1);
    assert_eq!(particle_plane("xOz"), 0);
    assert_eq!(particle_plane("yOz"), 2);
}

#[test]
fn command_text() {
    assert_eq!(particle_command("a:one", "1.0", "-2.5", "0.0"), "particle a:one ~1.0 ~-2.5 ~0.0");
}

#[test]
fn files_drop_an_empty_last_one() {
    let lines: Vec<String> = (0..10000).map(|i| format!("p{i}\n")).collect();
    assert_eq!(particle_function_texts(&lines).len(), 1);
    let more: Vec<String> = (0..10001).map(|i| format!("p{i}\n")).collect();
    let files = particle_function_texts(&more);
    assert_eq!(files.len(), 2);
    assert_eq!(files[1], "p10000\n");
    assert!(particle_function_texts(&vec![]).is_empty());
}

#[test]
fn match_script_lists_the_functions() {
    let s = match_script_text(2);
    assert!(s.contains("return;\n\tentity.runCommand('function output_0');\n\tentity.runCommand('function output_1');\n  Server.system.runTimeout"));
    assert!(s.starts_with("import * as Server from '@minecraft/server';\n"));
    let none = match_script_text(0);
    assert!(none.contains("return;\n\n  Server.system.runTimeout"));
}

#[test]
fn particle_file_names_dot_the_namespace() {
    assert_eq!(colorify::particle::particle_file_name("colorify:red"), "colorify.red.json");
    assert_eq!(colorify::particle::particle_file_name("a:b:c"), "a.b.c.json");
    assert_eq!(colorify::particle::particle_file_name("plain"), "plain.json");
    assert_eq!(colorify::particle::particle_file_name(":"), "..json");
}
