use venus_whisper::config::Config;
use venus_whisper::persona::{
    base64_encode, data_url, dir, file_stem_ext, list, load_active, load_file, load_prompt,
    pick_avatar, save_prompt, strip_builtin, sync_to_local, Catalog, PersonaEntry, PersonaKind,
    PersonaSource, SyncPlan, BUILTIN_PREFIX, DEFAULT_ID,
};

const PNG_1X1: &[u8] = &[
    0x89, 0x50, 0x4E, 0x47, 0x0D, 0x0A, 0x1A, 0x0A, 0x00, 0x00, 0x00, 0x0D, 0x49, 0x48, 0x44, 0x52,
];

fn md(name: &str, path: &str, text: &str) -> PersonaEntry {
    PersonaEntry {
        file_name: name.to_string(),
        path: path.to_string(),
        is_file: true,
        is_dir: false,
        has_prompt: false,
        prompt: Some(text.to_string()),
        role_name: None,
        role_description: None,
        has_bible: false,
        bible: None,
        avatars: vec![],
    }
}

fn role(name: &str, path: &str, prompt: &str, role_name: Option<&str>, bible: Option<&str>) -> PersonaEntry {
    PersonaEntry {
        file_name: name.to_string(),
        path: path.to_string(),
        is_file: false,
        is_dir: true,
        has_prompt: true,
        prompt: Some(prompt.to_string()),
        role_name: role_name.map(|s| s.to_string()),
        role_description: None,
        has_bible: bible.is_some(),
        bible: bible.map(|s| s.to_string()),
        avatars: vec![Some(PNG_1X1.to_vec())],
    }
}

fn builtin() -> Vec<PersonaEntry> {
    vec![
        md("zeta.md", "", "Z"),
        md("venus.md", "", "你是 Venus Whisper。"),
        md("alpha.md", "", "A"),
    ]
}

#[test]
fn base64_matches_reference() {
    assert_eq!(base64_encode(b""), "");
    assert_eq!(base64_encode(b"f"), "Zg==");
    assert_eq!(base64_encode(b"fo"), "Zm8=");
    assert_eq!(base64_encode(b"foo"), "Zm9v");
    assert_eq!(base64_encode(b"foobar"), "Zm9vYmFy");
}

#[test]
fn data_url_and_avatar_order() {
    assert_eq!(data_url(b"foo", "image/png"), "data:image/png;base64,Zm9v");
    assert_eq!(pick_avatar(&[None, Some(b"f".to_vec()), Some(b"x".to_vec())]).unwrap(), "data:image/jpeg;base64,Zg==");
    assert!(pick_avatar(&[None, None]).is_none());
}

#[test]
fn file_names_split_like_paths() {
    let (s, e) = file_stem_ext("a.b.md");
    assert_eq!(s.iter().collect::<String>(), "a.b");
    assert_eq!(e.unwrap().iter().collect::<String>(), "md");
    let (s, e) = file_stem_ext(".hidden");
    assert_eq!(s.iter().collect::<String>(), ".hidden");
    assert!(e.is_none());
    let (s, e) = file_stem_ext("kaguya");
    assert_eq!(s.iter().collect::<String>(), "kaguya");
    assert!(e.is_none());
}

#[test]
fn builtin_venus_is_embedded_and_first() {
    let cat = Catalog { builtin: builtin(), local: vec![] };
    let b = list(&cat);
    assert_eq!(b[0].id, DEFAULT_ID);
    assert_eq!(b[0].source, PersonaSource::Builtin);
    assert_eq!(b[1].id, "builtin/alpha");
    assert_eq!(b[2].id, "builtin/zeta");
    assert!(load_prompt(&cat, DEFAULT_ID).unwrap().contains("Venus Whisper"), "内置人格不依赖本地目录");
}

#[test]
fn local_personas_listed_with_markers() {
    let pd = dir("/cfg");
    assert_eq!(pd, "/cfg/personas");
    let local = vec![
        role("kaguya", "/cfg/personas/kaguya", "你是辉夜。", Some("四宫辉夜"), Some("# 设定集")),
        md("coder.md", "/cfg/personas/coder.md", "只回答代码。"),
        PersonaEntry { has_prompt: false, ..role("broken", "/cfg/personas/broken", "", None, None) },
        md(".hidden.md", "/cfg/personas/.hidden.md", "x"),
    ];
    let cat = Catalog { builtin: builtin(), local };
    let list1 = list(&cat);
    let n_builtin = 3;
    assert!(list1[..n_builtin].iter().all(|p| p.id.starts_with(BUILTIN_PREFIX)), "内置在前");
    let local_ids: Vec<_> = list1[n_builtin..].iter().map(|p| p.id.as_str()).collect();
    assert_eq!(local_ids, ["coder", "kaguya"]);
    assert_eq!(list1[3].source, PersonaSource::Local);
    assert_eq!(list1[4].name, "四宫辉夜");
    assert_eq!(list1[4].description, "角色目录");
    assert_eq!(list1[4].kind, PersonaKind::Role);
    assert!(list1[4].has_bible);
    assert!(list1[4].avatar.as_deref().unwrap().starts_with("data:image/png;base64,"));
    assert_eq!(load_prompt(&cat, "coder").unwrap(), "只回答代码。");
    assert_eq!(load_file(&cat, "kaguya", "bible").unwrap(), "# 设定集");
    assert!(load_file(&cat, "coder", "bible").is_err());
    assert!(save_prompt(&cat, "builtin/venus").is_err());
    assert!(save_prompt(&cat, "kaguya").is_err());
    assert_eq!(save_prompt(&cat, "coder").unwrap(), "/cfg/personas/coder.md");
    assert_eq!(load_prompt(&cat, "ghost").unwrap_err().message(), "人格不存在: ghost");
}

#[test]
fn synced_copy_is_marked_on_both_sides() {
    let local = vec![md("venus.md", "/cfg/personas/venus.md", "你是 Venus Whisper。\n\n")];
    let cat = Catalog { builtin: builtin(), local };
    let l = list(&cat);
    let b = l.iter().find(|p| p.id == DEFAULT_ID).unwrap();
    assert!(b.synced);
    assert!(b.identical);
    let c = l.iter().find(|p| p.id == "venus").unwrap();
    assert_eq!(c.origin.as_deref(), Some(DEFAULT_ID));
    assert!(!c.modified);

    let local = vec![md("venus.md", "/cfg/personas/venus.md", "本地改过")];
    let cat = Catalog { builtin: builtin(), local };
    let l = list(&cat);
    assert!(!l.iter().find(|p| p.id == DEFAULT_ID).unwrap().identical);
    assert!(l.iter().find(|p| p.id == "venus").unwrap().modified);
    assert!(!l.iter().find(|p| p.id == "builtin/alpha").unwrap().synced);
}

#[test]
fn sync_rules_for_builtin_personas() {
    let cat = Catalog { builtin: builtin(), local: vec![] };
    assert_eq!(strip_builtin(DEFAULT_ID).unwrap(), "venus");
    let (id, plan) = sync_to_local(&cat, DEFAULT_ID, false, false).unwrap();
    assert_eq!(id, "venus");
    assert_eq!(plan, SyncPlan::CopyFile);
    assert!(sync_to_local(&cat, DEFAULT_ID, false, true).is_err(), "已存在需确认");
    assert!(sync_to_local(&cat, DEFAULT_ID, true, true).is_ok());
    assert!(sync_to_local(&cat, "coder", false, false).is_err(), "本地项不能同步");
    assert!(sync_to_local(&cat, "builtin/nope", false, false).is_err());
    let cat = Catalog {
        builtin: vec![role("kaguya", "", "p", None, None)],
        local: vec![],
    };
    assert_eq!(sync_to_local(&cat, "builtin/kaguya", false, false).unwrap().1, SyncPlan::CopyDir);
}

#[test]
fn active_persona_falls_back_to_default() {
    let cat = Catalog {
        builtin: builtin(),
        local: vec![md("venus.md", "/cfg/personas/venus.md", "用户改过的旧人格")],
    };
    assert_eq!(load_prompt(&cat, "venus").unwrap(), "用户改过的旧人格");
    let mut cfg = Config::defaults();
    cfg.agent.persona = "ghost".into();
    assert!(load_active(&cat, &cfg).unwrap().contains("Venus Whisper"), "找不到回落内置默认");
    cfg.agent.persona = "venus".into();
    assert_eq!(load_active(&cat, &cfg).unwrap(), "用户改过的旧人格");
}
