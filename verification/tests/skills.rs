use venus_whisper::config::Config;
use venus_whisper::skills::{
    dir, list, load, load_enabled, save, sync_to_local, title_of, SkillCatalog, SkillEntry,
    SkillSource,
};

fn file(name: &str, path: &str, text: &str) -> SkillEntry {
    SkillEntry {
        file_name: name.to_string(),
        path: path.to_string(),
        is_file: true,
        text: Some(text.to_string()),
    }
}

fn builtin() -> Vec<SkillEntry> {
    vec![file(
        "role-replication-skill-v2.md",
        "",
        "# Role Replication Skill\n正文",
    )]
}

#[test]
fn builtin_skill_listed_with_title() {
    let cat = SkillCatalog { builtin: builtin(), local: vec![] };
    let b = list(&cat);
    assert!(b.iter().any(|s| s.id == "builtin/role-replication-skill-v2"));
    assert!(load(&cat, "builtin/role-replication-skill-v2").unwrap().contains("Skill"));
    assert!(!b[0].title.is_empty(), "取第一行标题");
}

#[test]
fn titles_come_from_the_first_heading() {
    assert_eq!(title_of("intro\n## 标题 ##  \nbody"), "标题 ##");
    assert_eq!(title_of("no heading"), "");
    assert_eq!(title_of("   # indented"), "indented");
    assert_eq!(title_of("  ## Title"), "Title");
    assert_eq!(title_of(""), "");
}

#[test]
fn skill_sync_diff_and_enabled() {
    let id = "builtin/role-replication-skill-v2";
    assert_eq!(dir("/cfg"), "/cfg/skills");
    let cat = SkillCatalog { builtin: builtin(), local: vec![] };
    assert!(list(&cat).iter().all(|s| s.source == SkillSource::Builtin), "默认不落盘");

    let (local, text) = sync_to_local(&cat, id, false, false).unwrap();
    assert_eq!(local, "role-replication-skill-v2");
    let path = "/cfg/skills/role-replication-skill-v2.md";
    let cat = SkillCatalog {
        builtin: builtin(),
        local: vec![file("role-replication-skill-v2.md", path, &text)],
    };
    let l = list(&cat);
    assert!(l.iter().find(|s| s.id == id).unwrap().identical);
    assert!(!l.iter().find(|s| s.id == local).unwrap().modified);

    assert_eq!(save("/cfg", &local).unwrap(), path);
    let cat = SkillCatalog {
        builtin: builtin(),
        local: vec![file("role-replication-skill-v2.md", path, "# 改过的\n内容")],
    };
    let l = list(&cat);
    assert!(l.iter().find(|s| s.id == local).unwrap().modified);
    assert_eq!(l.iter().find(|s| s.id == local).unwrap().title, "改过的");
    assert!(sync_to_local(&cat, id, false, true).is_err());
    assert!(save("/cfg", id).is_err(), "内置只读");

    let mut cfg = Config::defaults();
    cfg.agent.skills = vec![local.clone(), "ghost".into(), id.into()];
    let enabled = load_enabled(&cat, &cfg);
    assert_eq!(enabled.len(), 2, "缺失的跳过");
    assert_eq!(enabled[0].0, "role-replication-skill-v2");
    assert_eq!(enabled[0].1, "# 改过的\n内容");
    assert_eq!(enabled[1].0, "role-replication-skill-v2");
}
