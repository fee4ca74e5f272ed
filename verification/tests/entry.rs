use better_launcher::entry::{is_true_chars, parse_desktop_file};

const FIREFOX: &str =
    "[Desktop Entry]\nType=Application\nName=Firefox\nIcon=firefox\nExec=firefox %u\n";

#[test]
fn reads_a_complete_entry() {
    let r = parse_desktop_file(FIREFOX).expect("a launchable application");
    assert_eq!(r.name, "Firefox");
    assert_eq!(r.icon_name, "firefox");
    assert_eq!(r.exec_template, "firefox %u");
    assert_eq!(r.entry_type, "Application");
    assert!(!r.no_display);
    assert!(!r.hidden);
}

#[test]
fn line_order_does_not_matter() {
    let r = parse_desktop_file("Exec=run\nIcon=pic\nName=App\nType=Application").unwrap();
    assert_eq!(r.name, "App");
    assert_eq!(r.icon_name, "pic");
    assert_eq!(r.exec_template, "run");
}

#[test]
fn first_occurrence_of_a_key_wins() {
    let text = "Type=Application\nName=First\nName=Second\nIcon=a\nIcon=b\nExec=x\nExec=y\n";
    let r = parse_desktop_file(text).unwrap();
    assert_eq!(r.name, "First");
    assert_eq!(r.icon_name, "a");
    assert_eq!(r.exec_template, "x");
    let later = "Type=Link\nType=Application\nName=n\nIcon=i\nExec=e\n";
    assert!(parse_desktop_file(later).is_none());
}

#[test]
fn no_display_true_is_dropped_in_any_case() {
    for flag in ["true", "TRUE", "True", "tRuE"] {
        let text = format!("{}NoDisplay={}\n", FIREFOX, flag);
        assert!(parse_desktop_file(&text).is_none(), "NoDisplay={}", flag);
    }
}

#[test]
fn hidden_true_is_dropped_in_any_case() {
    for flag in ["true", "TRUE", "True", "trUE"] {
        let text = format!("Hidden={}\n{}", flag, FIREFOX);
        assert!(parse_desktop_file(&text).is_none(), "Hidden={}", flag);
    }
}

#[test]
fn other_flag_values_do_not_hide() {
    for flag in ["false", "", "yes", "1", "true ", " true", "truely", "tru"] {
        let text = format!("{}NoDisplay={}\nHidden={}\n", FIREFOX, flag, flag);
        assert!(parse_desktop_file(&text).is_some(), "flag {:?}", flag);
    }
}

#[test]
fn the_last_flag_line_decides() {
    let shown = format!("{}NoDisplay=true\nNoDisplay=false\n", FIREFOX);
    assert!(parse_desktop_file(&shown).is_some());
    let dropped = format!("{}NoDisplay=false\nNoDisplay=true\n", FIREFOX);
    assert!(parse_desktop_file(&dropped).is_none());
    let hidden_again = format!("Hidden=true\nHidden=no\nHidden=TRUE\n{}", FIREFOX);
    assert!(parse_desktop_file(&hidden_again).is_none());
}

#[test]
fn type_must_be_exactly_application() {
    for t in ["Link", "Directory", "application", "Application ", " Application", ""] {
        let text = format!("Type={}\nName=n\nIcon=i\nExec=e\n", t);
        assert!(parse_desktop_file(&text).is_none(), "Type={:?}", t);
    }
    assert!(parse_desktop_file("Name=n\nIcon=i\nExec=e\n").is_none());
}

#[test]
fn name_icon_and_exec_are_required() {
    assert!(parse_desktop_file("Type=Application\nIcon=i\nExec=e\n").is_none());
    assert!(parse_desktop_file("Type=Application\nName=n\nExec=e\n").is_none());
    assert!(parse_desktop_file("Type=Application\nName=n\nIcon=i\n").is_none());
    assert!(parse_desktop_file("").is_none());
    assert!(parse_desktop_file("\n\n\n").is_none());
}

#[test]
fn values_are_taken_as_they_stand() {
    let text = "Type=Application\nName=  Spaced Out \nIcon=\nExec=sh -c \"echo 'a=b'\" %f\n";
    let r = parse_desktop_file(text).unwrap();
    assert_eq!(r.name, "  Spaced Out ");
    assert_eq!(r.icon_name, "");
    assert_eq!(r.exec_template, "sh -c \"echo 'a=b'\" %f");
}

#[test]
fn only_the_key_itself_is_removed() {
    let r = parse_desktop_file("Type=Application\nName=Name=x\nIcon=i\nExec=Exec=Exec=e\n").unwrap();
    assert_eq!(r.name, "Name=x");
    assert_eq!(r.exec_template, "Exec=Exec=e");
    assert!(parse_desktop_file("Type=Type=Application\nName=n\nIcon=i\nExec=e\n").is_none());
}

#[test]
fn other_keys_are_not_mistaken() {
    let text = "Type=Application\nGenericName=Browser\nName[de]=Feuerfuchs\n Name=indented\n\
                name=lower\nName=Real\nIcon=i\nExec=e\nTryExec=t\n";
    let r = parse_desktop_file(text).unwrap();
    assert_eq!(r.name, "Real");
    assert_eq!(r.exec_template, "e");
}

#[test]
fn carriage_returns_before_line_feeds_are_no_part_of_a_value() {
    let r = parse_desktop_file("Type=Application\r\nName=Win\r\nIcon=i\r\nExec=e\r\n").unwrap();
    assert_eq!(r.name, "Win");
    assert_eq!(r.exec_template, "e");
    let last = parse_desktop_file("Type=Application\nName=n\nIcon=i\nExec=e\r").unwrap();
    assert_eq!(last.exec_template, "e\r");
    let inner = parse_desktop_file("Type=Application\nName=a\rb\nIcon=i\nExec=e\n").unwrap();
    assert_eq!(inner.name, "a\rb");
}

#[test]
fn recognises_the_word_true() {
    let chars = |s: &str| s.chars().collect::<Vec<char>>();
    assert!(is_true_chars(&chars("true")));
    assert!(is_true_chars(&chars("TrUe")));
    assert!(!is_true_chars(&chars("false")));
    assert!(!is_true_chars(&chars("")));
    assert!(!is_true_chars(&chars("trues")));
}

#[test]
fn only_the_letters_of_true_fold_to_them() {
    for n in 0..=0x10ffffu32 {
        if let Some(ch) = char::from_u32(n) {
            let lower: String = ch.to_lowercase().collect();
            let folds = ["t", "r", "u", "e"].contains(&lower.as_str());
            let is_letter = "tTrRuUeE".contains(ch);
            assert_eq!(folds, is_letter, "U+{:04X}", n);
            let hits = lower.chars().any(|c| "true".contains(c));
            assert_eq!(hits, is_letter, "U+{:04X}", n);
        }
    }
    for v in ["true", "TRUE", "True", "tRUe", "false", "truE ", "ｔｒｕｅ", "TRÜE"] {
        let text = format!("Type=Application\nName=n\nIcon=i\nExec=e\nNoDisplay={}\n", v);
        assert_eq!(parse_desktop_file(&text).is_none(), v.to_lowercase() == "true", "{:?}", v);
    }
}
