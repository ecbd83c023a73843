use std::collections::BTreeMap;
use venus_whisper::theme::{builtin_ids, dir, load_all, Theme, ThemeFile};

fn theme(name: &str, colors: &[(&str, &str)]) -> Theme {
    Theme {
        id: String::new(),
        name: name.to_string(),
        description: String::new(),
        colors: colors.iter().map(|(k, v)| (k.to_string(), v.to_string())).collect(),
        code: BTreeMap::new(),
    }
}

fn file(name: &str, t: Option<Theme>) -> ThemeFile {
    ThemeFile { file_name: name.to_string(), theme: t }
}

#[test]
fn user_theme_is_listed_and_bad_file_skipped() {
    assert_eq!(dir("/cfg"), "/cfg/themes");
    assert_eq!(builtin_ids(), vec!["mint", "peach", "sky"]);
    let list = load_all(vec![
        file("sky.toml", Some(theme("天空", &[]))),
        file("mint.toml", Some(theme("薄荷", &[]))),
        file("peach.toml", Some(theme("蜜桃", &[]))),
    ]);
    assert_eq!(list.iter().map(|t| t.id.as_str()).collect::<Vec<_>>(), ["mint", "peach", "sky"]);

    let list = load_all(vec![
        file("mine.toml", Some(theme("我的", &[("accent", "#ff0000")]))),
        file("broken.toml", None),
        file("sky.toml", Some(theme("天空", &[]))),
        file("mint.toml", Some(theme("改过的薄荷", &[]))),
        file("peach.toml", Some(theme("蜜桃", &[]))),
        file("notes.txt", Some(theme("不是主题", &[]))),
    ]);
    let ids: Vec<_> = list.iter().map(|t| t.id.as_str()).collect();
    assert_eq!(ids, ["mint", "peach", "sky", "mine"]);
    assert_eq!(list[0].name, "改过的薄荷");
    assert_eq!(list[3].colors["accent"], "#ff0000");
    assert!(list[3].code.is_empty());
}

#[test]
fn other_themes_sort_by_id_after_builtin() {
    let list = load_all(vec![
        file("zz.toml", Some(theme("z", &[]))),
        file("aa.toml", Some(theme("a", &[]))),
        file("sky.toml", Some(theme("s", &[]))),
    ]);
    let ids: Vec<_> = list.iter().map(|t| t.id.as_str()).collect();
    assert_eq!(ids, ["sky", "aa", "zz"]);
}
