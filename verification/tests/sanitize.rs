use better_launcher::sanitize::clean_exec_command;

#[test]
fn removes_each_of_the_seven_codes() {
    assert_eq!(clean_exec_command("app %f"), "app");
    assert_eq!(clean_exec_command("app %F"), "app");
    assert_eq!(clean_exec_command("app %u"), "app");
    assert_eq!(clean_exec_command("app %U"), "app");
    assert_eq!(clean_exec_command("app %i"), "app");
    assert_eq!(clean_exec_command("app %c"), "app");
    assert_eq!(clean_exec_command("app %k"), "app");
}

#[test]
fn removes_every_occurrence() {
    assert_eq!(clean_exec_command("%fa%fb%f"), "ab");
    assert_eq!(clean_exec_command("gimp-2.10 %U --new %U"), "gimp-2.10  --new");
}

#[test]
fn codes_are_case_sensitive_and_exact() {
    assert_eq!(clean_exec_command("app %I %C %K"), "app %I %C %K");
    assert_eq!(clean_exec_command("app %d %n 100%"), "app %d %n 100%");
    assert_eq!(clean_exec_command("app %20f"), "app %20f");
}

#[test]
fn trims_white_space_at_both_ends() {
    assert_eq!(clean_exec_command("  \t app --flag \n"), "app --flag");
    assert_eq!(clean_exec_command("\u{a0}app\u{3000}"), "app");
    assert_eq!(clean_exec_command("%f"), "");
    assert_eq!(clean_exec_command(""), "");
    assert_eq!(clean_exec_command("   "), "");
}

#[test]
fn sanitizing_twice_changes_nothing_more() {
    for x in ["firefox %u", "  vlc --started-from-file %U ", "a%fb%Fc%id", "plain"] {
        let once = clean_exec_command(x);
        assert_eq!(clean_exec_command(&once), once);
    }
}

#[test]
fn a_pass_does_not_look_at_what_it_joined() {
    assert_eq!(clean_exec_command("%%ff"), "%f");
    assert_eq!(clean_exec_command("%%Ff"), "%f");
    assert_eq!(clean_exec_command("%%fF"), "");
}
