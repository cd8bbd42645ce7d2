use worksmith::json::Json;
use worksmith::skill::catalog::{search_paths, SkillFile};
use worksmith::skill::{
    headings, normalize_heading, parse_skill, section_slice, validate_name, Reference, SectionMatch,
    Skill, SkillCatalog, MAX_CATALOG_CHARS, MAX_MAP_CHARS,
};
use worksmith::tools::skill::{fetch_section, list, load_skill, skill_call, SkillCall};

const DOC: &str = "# Writing rules\n\nintro\n\n```bash\n# not a heading\necho hi\n```\n\n## 8. Writing Style Rules\nshort sentences\n\n### Detail\nnested detail\n\n## 9. Handling Special Characters\nescape them\n";

#[test]
fn headings_skip_code_fences() {
    let hs = headings(DOC);
    let titles: Vec<&str> = hs.iter().map(|(_, t)| t.as_str()).collect();
    assert_eq!(
        titles,
        vec![
            "Writing rules",
            "8. Writing Style Rules",
            "Detail",
            "9. Handling Special Characters"
        ],
        "the # inside the bash fence must not appear"
    );
    assert_eq!(hs[0].0, 1);
    assert_eq!(hs[2].0, 3);
}

#[test]
fn a_section_slice_keeps_its_subsections_and_stops_at_a_peer() {
    let slice = section_slice(DOC, 2, "8. Writing Style Rules");
    assert!(slice.contains("short sentences"));
    assert!(slice.contains("### Detail"), "nested stays inside its parent");
    assert!(!slice.contains("escape them"), "the next peer heading ends it");
}

#[test]
fn the_last_section_runs_to_end_of_file() {
    let slice = section_slice(DOC, 2, "9. Handling Special Characters");
    assert!(slice.contains("escape them"));
}

#[test]
fn numbered_headings_match_without_their_numbers() {
    assert_eq!(normalize_heading("8. Writing Style Rules"), "writing style rules");
    assert_eq!(normalize_heading("Plain Title"), "plain title");
    // "v2. something" is not a list number; leave it alone.
    assert_eq!(normalize_heading("v2. Something"), "v2. something");
}

fn skill_with_references(files: &[(&str, &str)]) -> (Vec<Reference>, Skill) {
    let dir = "/skills/t".to_string();
    let refs = files
        .iter()
        .map(|(name, content)| Reference {
            path: format!("{dir}/references/{name}"),
            text: Some(content.to_string()),
        })
        .collect();
    let skill = Skill {
        name: "t".into(),
        description: "d".into(),
        path: format!("{dir}/SKILL.md"),
        dir,
        allowed_tools: None,
    };
    (refs, skill)
}

#[test]
fn the_map_lists_files_and_headings_and_teaches_the_fetch() {
    let (refs, skill) = skill_with_references(&[("guide.md", DOC)]);
    let map = skill.map(&refs);
    assert!(map.contains("references/guide.md"), "{map}");
    assert!(map.contains("## 8. Writing Style Rules"));
    assert!(map.contains("skill(name: \"t\", section:"), "the usage line is the teaching");
}

#[test]
fn a_bloated_map_drops_depth_before_width() {
    let mut big = String::from("# Top\n");
    for i in 0..120 {
        big.push_str(&format!("### Deep section number {i} with a long title\n"));
    }
    let (refs, skill) = skill_with_references(&[("big.md", &big)]);
    let map = skill.map(&refs);
    assert!(map.len() <= MAX_MAP_CHARS + 200, "bounded: {} chars", map.len());
    assert!(map.contains("# Top"), "shallow survives");
    assert!(map.contains("more, grep the file"), "the cut is named, never silent");
}

#[test]
fn headingless_references_mean_no_map_not_an_error() {
    let (refs, skill) = skill_with_references(&[("notes.md", "just prose, no structure")]);
    assert_eq!(skill.map(&refs), "");
    assert!(matches!(skill.find_section(&refs, "anything"), SectionMatch::Nothing));
}

#[test]
fn a_file_path_query_returns_that_files_headings() {
    let (refs, skill) = skill_with_references(&[("guide.md", DOC)]);
    match skill.find_section(&refs, "references/guide.md") {
        SectionMatch::File { file, headings } => {
            assert_eq!(file, "references/guide.md");
            assert!(headings.iter().any(|(_, t)| t.contains("Writing Style Rules")));
        }
        other => panic!("expected File, got {other:?}"),
    }
    // Bare filename works too.
    assert!(matches!(skill.find_section(&refs, "guide.md"), SectionMatch::File { .. }));
}

#[test]
fn an_ambiguous_query_returns_candidates_not_a_guess() {
    let (refs, skill) = skill_with_references(&[
        ("a.md", "## Style Rules\nfrom a\n"),
        ("b.md", "## Style Rules for Tables\nfrom b\n"),
    ]);
    match skill.find_section(&refs, "style rules") {
        SectionMatch::Many(c) => assert_eq!(c.len(), 2),
        other => panic!("expected Many, got {other:?}"),
    }
    // A narrower query resolves.
    match skill.find_section(&refs, "for tables") {
        SectionMatch::One { content, .. } => assert!(content.contains("from b")),
        other => panic!("expected One, got {other:?}"),
    }
}

fn at(dir: &str, name: &str) -> String {
    format!("{dir}/{name}/SKILL.md")
}

fn file(dir: &str, name: &str, text: &str) -> SkillFile {
    SkillFile { path: at(dir, name), text: Ok(text.to_string()) }
}

#[test]
fn parses_the_required_fields_and_body() {
    let text =
        "---\nname: docs\ndescription: Working with PDFs and DOCX.\n---\n\n# Docs\n\nBody here.\n";
    let s = parse_skill(&at("/s", "docs"), text).unwrap();
    assert_eq!(s.name, "docs");
    assert_eq!(s.description, "Working with PDFs and DOCX.");
    assert_eq!(s.dir, "/s/docs");
    assert!(s.body(text).contains("Body here."));
    assert!(!s.body(text).contains("description:"), "frontmatter is stripped");
}

#[test]
fn handles_quotes_folded_blocks_and_nested_maps() {
    let s = parse_skill(
        &at("/s", "fancy"),
        "---\nname: \"fancy\"\ndescription: >-\n  A folded description\n  across two lines.\n\
         metadata:\n  author: someone\n  tags: a,b\nallowed-tools: Bash(git:*) Read\n---\nbody\n",
    )
    .unwrap();
    assert_eq!(s.name, "fancy", "quotes stripped");
    assert_eq!(s.description, "A folded description across two lines.");
    assert_eq!(s.allowed_tools.as_deref(), Some("Bash(git:*) Read"));
}

#[test]
fn rejects_what_the_spec_forbids() {
    let cases = [
        ("nodesc", "---\nname: nodesc\n---\nbody\n", "description"),
        ("noname", "---\ndescription: x\n---\nbody\n", "name"),
        ("unclosed", "---\nname: unclosed\ndescription: x\nbody\n", "not closed"),
        ("nofence", "name: nofence\ndescription: x\n", "missing `---`"),
        ("Bad-Case", "---\nname: Bad-Case\ndescription: x\n---\n", "lowercase"),
    ];
    for (dirname, text, needle) in cases {
        let err = parse_skill(&at("/s", dirname), text).unwrap_err();
        assert!(err.contains(needle), "{dirname}: expected {needle:?}, got {err:?}");
    }
}

#[test]
fn name_must_match_its_directory() {
    // Otherwise `/skill <name>` and the folder on disk disagree.
    let err = parse_skill(
        &at("/s", "folder-name"),
        "---\nname: other-name\ndescription: x\n---\n",
    )
    .unwrap_err();
    assert!(err.contains("does not match"));
}

#[test]
fn nearer_definitions_win_and_say_so() {
    let mut cat = SkillCatalog::new();
    cat.load_dir(&vec![file("/low", "dup", "---\nname: dup\ndescription: the low one\n---\n")]);
    cat.load_dir(&vec![file("/high", "dup", "---\nname: dup\ndescription: the high one\n---\n")]);

    assert_eq!(cat.skills().len(), 1, "one name, one entry");
    assert_eq!(cat.get("dup").unwrap().description, "the high one");
    assert!(
        cat.notes().iter().any(|n| n.contains("overrides")),
        "shadowing must be announced, not silent: {:?}",
        cat.notes()
    );
}

#[test]
fn a_malformed_skill_is_reported_not_swallowed() {
    let mut cat = SkillCatalog::new();
    cat.load_dir(&vec![
        file("/s", "good", "---\nname: good\ndescription: fine\n---\n"),
        file("/s", "broken", "---\nname: broken\n---\n"),
    ]);
    assert_eq!(cat.skills().len(), 1, "the good one still loads");
    assert!(cat.notes().iter().any(|n| n.contains("broken")), "{:?}", cat.notes());
}

#[test]
fn the_catalog_block_is_bounded() {
    let files: Vec<SkillFile> = (0..40)
        .map(|i| {
            let name = format!("skill-{i}");
            let text = format!("---\nname: {name}\ndescription: {}\n---\n", "x".repeat(400));
            file("/tmp", &name, &text)
        })
        .collect();
    let cat = SkillCatalog::discover(vec![files]);
    assert_eq!(cat.skills().len(), 40);
    let section = cat.prompt_section(MAX_CATALOG_CHARS);
    assert!(section.len() <= MAX_CATALOG_CHARS + 200, "len {}", section.len());
    assert!(section.contains("not listed"), "and it says what it dropped");
    assert!(SkillCatalog::new().prompt_section(MAX_CATALOG_CHARS).is_empty());
}

#[test]
fn every_rule_on_names_has_its_own_words() {
    assert!(validate_name("a-1").is_ok());
    assert_eq!(validate_name("").unwrap_err(), "`name` must be 1..=64 characters");
    assert_eq!(validate_name(&"a".repeat(65)).unwrap_err(), "`name` must be 1..=64 characters");
    for bad in ["-a", "a-", "a--b"] {
        assert!(validate_name(bad).unwrap_err().contains("cannot start or end with `-`"));
    }
    assert!(validate_name("a_b").unwrap_err().contains("lowercase letters"));
    let long = format!("---\nname: x\ndescription: {}\n---\n", "y".repeat(1025));
    assert_eq!(
        parse_skill(&at("/s", "x"), &long).unwrap_err(),
        "`description` is over 1024 characters"
    );
    let odd = "---\nname: x\nno colon here\n---\n";
    assert!(parse_skill(&at("/s", "x"), odd).unwrap_err().contains("not `key: value`"));
    let blank = "---\nname: x\ndescription: \" \"\n---\n";
    assert!(parse_skill(&at("/s", "x"), blank).unwrap_err().contains("`description` is empty"));
}

#[test]
fn skills_are_found_nearest_last() {
    let all = search_paths("/p", ".shared", &Some("/h".to_string()), &Some("/g".to_string()));
    assert_eq!(
        all,
        vec!["/p/skills", "/h/.shared/skills", "/g/skills", "/p/.shared/skills", "/p/.worksmith/skills"]
    );
    assert_eq!(search_paths("/p", ".shared", &None, &None).len(), 3);
    let unreadable = SkillFile { path: at("/s", "x"), text: Err("denied".to_string()) };
    let cat = SkillCatalog::discover(vec![vec![unreadable]]);
    assert_eq!(cat.notes(), &vec!["skipped /s/x/SKILL.md: unreadable: denied".to_string()]);
    let two = SkillCatalog::discover(vec![vec![
        file("/s", "b", "---\nname: b\ndescription: two\n---\n"),
        file("/s", "a", "---\nname: a\ndescription: one\n---\n"),
    ]]);
    assert_eq!(two.skills()[0].name, "a");
    assert_eq!(list(&two), "available skills:\n- a: one\n- b: two\n");
}

#[test]
fn a_skill_is_loaded_once_and_its_sections_can_be_fetched() {
    let text = "---\nname: t\ndescription: d\n---\n\nDo it well.\n";
    let cat = SkillCatalog::discover(vec![vec![file("/skills", "t", text)]]);
    let args = |s: &str| Json::parse(s).unwrap();
    match skill_call(&args("{}"), &cat) {
        SkillCall::Answer(o) => assert_eq!(o.content, "available skills:\n- t: d\n"),
        other => panic!("{other:?}"),
    }
    match skill_call(&args(r#"{"name": "u"}"#), &cat) {
        SkillCall::Answer(o) => assert!(o.is_error && o.content.contains("no skill named `u`")),
        other => panic!("{other:?}"),
    }
    assert!(matches!(skill_call(&args(r#"{"name": " t "}"#), &cat), SkillCall::Load { skill: 0 }));
    assert!(matches!(
        skill_call(&args(r#"{"name": "t", "section": "style"}"#), &cat),
        SkillCall::Section { skill: 0, .. }
    ));
    let (refs, skill) = skill_with_references(&[("guide.md", DOC)]);
    let mut loaded = Vec::new();
    let first = load_skill(&skill, text, &refs, &mut loaded);
    assert!(first.content.starts_with("skill `t` (files live in /skills/t)\n\nDo it well.\n\n<skill-map"));
    let second = load_skill(&skill, text, &refs, &mut loaded);
    assert!(second.content.contains("already loaded"), "{}", second.content);
    assert_eq!(loaded.len(), 1);

    let one = fetch_section(&skill, &refs, "detail");
    assert_eq!(one.content, "t § Detail (from references/guide.md)\n\n### Detail\nnested detail\n");
    let none = fetch_section(&skill, &refs, "nothing like it");
    assert!(none.is_error && none.content.contains("The map:"), "{}", none.content);
    let bare = fetch_section(&skill, &vec![], "anything");
    assert!(bare.content.contains("has no reference sections"), "{}", bare.content);
    let file = fetch_section(&skill, &refs, "guide.md");
    assert!(file.content.contains("- 8. Writing Style Rules"), "{}", file.content);
    let many = fetch_section(&skill, &refs, "r");
    assert!(many.content.contains("matches several sections"), "{}", many.content);
}

#[test]
fn a_skill_beside_the_skills_directory_is_pointed_out() {
    let dirs = vec![
        ("pdf-tools".to_string(), true),
        ("skills".to_string(), true),
        ("src".to_string(), false),
        ("pdf".to_string(), true),
    ];
    assert_eq!(
        SkillCatalog::misplaced("/p", &dirs),
        vec!["/p/pdf/SKILL.md".to_string(), "/p/pdf-tools/SKILL.md".to_string()]
    );
    assert!(SkillCatalog::misplaced("/p", &Vec::new()).is_empty());
}

#[test]
fn only_prose_is_a_reference_and_in_order() {
    let (_, skill) = skill_with_references(&[]);
    let names: Vec<String> =
        ["z.md", "run.sh", "a.md", ".md", "b.MD", "notes"].iter().map(|n| n.to_string()).collect();
    assert_eq!(
        skill.reference_files(&names),
        vec!["/skills/t/references/a.md".to_string(), "/skills/t/references/z.md".to_string()]
    );
}
