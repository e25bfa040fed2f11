use level_progression::command::{parse_commands, Command, Reply};
use level_progression::component::{Bundle, Key};
use level_progression::level::{Controller, Request};
use level_progression::text::{chars_of, parse_usize, spells, strip_prefix};

fn load(placeholder: usize, level: &str) -> Option<Request> {
    Some(Request::Load { placeholder, path: format!("scenes/{level}.scn.ron") })
}

#[test]
fn each_form_is_read() {
    let level = |s: &str| s.to_string();
    assert_eq!(parse_commands("/mk cave_3"), Command::Make(level("cave_3")));
    assert_eq!(parse_commands("/ld cave_3"), Command::Load(level("cave_3")));
    assert_eq!(parse_commands("/cp cave_3"), Command::Copy(level("cave_3")));
    assert_eq!(parse_commands("/door cave_3"), Command::Door(level("cave_3")));
    assert_eq!(parse_commands("/setdoor cave_3"), Command::SetDoor(level("cave_3")));
    assert_eq!(parse_commands("/keep"), Command::Keep);
    assert_eq!(parse_commands("/destroy"), Command::Destroy);
    assert_eq!(parse_commands("/ammo 12"), Command::Ammo(12));
}

#[test]
fn what_follows_the_prefix_is_taken_as_it_is() {
    assert_eq!(parse_commands("/mk "), Command::Make(String::new()));
    assert_eq!(parse_commands("/mk  a b "), Command::Make(" a b ".to_string()));
    assert_eq!(parse_commands("/ld /mk x"), Command::Load("/mk x".to_string()));
    assert_eq!(parse_commands("/door 漢字"), Command::Door("漢字".to_string()));
    assert_eq!(parse_commands("/setdoor "), Command::SetDoor(String::new()));
}

#[test]
fn anything_else_is_no_command() {
    for line in [
        "", "/", "/mk", "/ld", "/cp", "/door", "/setdoor", "/ammo", "mk x", " /mk x", "/MK x",
        "/keep ", "/keep x", " /keep", "/destroy ", "/destroyed", "/keeps", "/mkx", "hello",
        "/door\tx",
    ] {
        assert_eq!(parse_commands(line), Command::Usage, "{line:?}");
    }
}

#[test]
fn ammo_takes_a_number_that_fits() {
    assert_eq!(parse_commands("/ammo 0"), Command::Ammo(0));
    assert_eq!(parse_commands("/ammo 007"), Command::Ammo(7));
    assert_eq!(parse_commands("/ammo +5"), Command::Ammo(5));
    let max = usize::MAX;
    assert_eq!(parse_commands(&format!("/ammo {max}")), Command::Ammo(max));
    for text in ["", " ", "+", "-", "-1", "1 ", " 1", "1.0", "0x10", "++1", "1+", "ten", "٣"] {
        let word = text.to_string();
        assert_eq!(parse_commands(&format!("/ammo {text}")), Command::NotANumber(word), "{text:?}");
        assert_eq!(text.parse::<usize>().ok(), None, "{text:?}");
    }
    let too_big = format!("{max}0");
    assert_eq!(parse_commands(&format!("/ammo {too_big}")), Command::NotANumber(too_big));
    let one_more = "18446744073709551616".to_string();
    if usize::BITS == 64 {
        assert_eq!(parse_commands(&format!("/ammo {one_more}")), Command::NotANumber(one_more));
    }
}

#[test]
fn numbers_are_read_as_the_standard_library_reads_them() {
    for text in ["0", "1", "10", "00", "+0", "+123", "4294967295", "4294967296", "", "+", "a1", "1a"] {
        assert_eq!(parse_usize(&chars_of(text), 0), text.parse::<usize>().ok(), "{text:?}");
    }
    assert_eq!(parse_usize(&chars_of("ab12"), 2), Some(12));
    assert_eq!(parse_usize(&chars_of("ab12"), 4), None);
    assert_eq!(parse_usize(&chars_of("ab12"), 5), None);
}

#[test]
fn prefixes_and_words() {
    let line = "/mk cave";
    let chars = chars_of(line);
    assert_eq!(chars, vec!['/', 'm', 'k', ' ', 'c', 'a', 'v', 'e']);
    assert_eq!(strip_prefix(line, "/mk "), Some("cave".to_string()));
    assert_eq!(strip_prefix(line, ""), Some(line.to_string()));
    assert_eq!(strip_prefix(line, line), Some(String::new()));
    assert_eq!(strip_prefix(line, "/mk cave "), None);
    assert_eq!(strip_prefix(line, "/ld "), None);
    assert!(spells(&chars, "/mk cave"));
    assert!(!spells(&chars, "/mk cav"));
    assert!(!spells(&chars, "/mk cave "));
    assert!(!spells(&chars, "/mk cavf"));
    assert_eq!(chars_of("é漢"), vec!['é', '漢']);
    assert_eq!(strip_prefix("é漢", "é"), Some("漢".to_string()));
}

#[test]
fn make_load_and_copy_change_the_level() {
    let mut c = Controller::new();
    match c.command(parse_commands("/mk cave_1")) {
        Reply::Done { save: Some(Request::Save { path, text }), load: None } => {
            assert_eq!(path, "assets/scenes/cave_1.scn.ron");
            assert_eq!(text.lines().count(), 7);
        },
        other => panic!("{other:?}"),
    }
    assert_eq!(c.level().0, "cave_1");
    assert_eq!(c.world().next_id(), 7);

    assert_eq!(
        c.command(parse_commands("/ld cave_2")),
        Reply::Done { save: None, load: load(7, "cave_2") }
    );
    assert_eq!(c.level().0, "cave_2");
    assert!(!c.world().contains(0));

    c.new_level();
    match c.command(parse_commands("/cp cave_3")) {
        Reply::Done { save: Some(Request::Save { path, text }), load } => {
            assert_eq!(path, "assets/scenes/cave_2.scn.ron");
            assert_eq!(text.lines().count(), 7);
            assert_eq!(load, self::load(15, "cave_3"));
        },
        other => panic!("{other:?}"),
    }
    assert_eq!(c.level().0, "cave_3");
    assert!(!c.world().contains(9));
}

#[test]
fn door_commands_act_on_the_single_door() {
    let done = || Reply::Done { save: None, load: None };
    let mut c = Controller::new();
    assert_eq!(c.command(Command::Keep), Reply::NoDoor);
    assert_eq!(c.command(Command::Destroy), Reply::NoDoor);
    assert_eq!(c.command(Command::SetDoor("cave_4".to_string())), Reply::NoDoor);
    assert_eq!(c.world().next_id(), 0);

    assert_eq!(c.command(parse_commands("/door cave_2")), done());
    assert_eq!(c.world().get(0).unwrap().bundle, Bundle::door("cave_2".to_string()));
    assert_eq!(c.command(parse_commands("/setdoor cave_4")), done());
    assert_eq!(c.world().get(0).unwrap().bundle, Bundle::door("cave_4".to_string()));
    assert_eq!(c.command(parse_commands("/keep")), done());
    assert_eq!(c.command(parse_commands("/destroy")), done());
    assert_eq!(c.world().get(0).unwrap().keys.0, vec![1, 2]);
    assert_eq!(c.world().get(1).unwrap().bundle, Bundle::key(Key::MustKeep));
    assert_eq!(c.world().get(2).unwrap().bundle, Bundle::key(Key::MustDestroy));

    assert_eq!(c.command(parse_commands("/door cave_5")), done());
    assert_eq!(c.command(Command::Keep), Reply::NoDoor);
    assert_eq!(c.command(Command::SetDoor("cave_6".to_string())), Reply::NoDoor);
    assert_eq!(c.world().next_id(), 4);
}

#[test]
fn the_rest_changes_nothing() {
    let mut c = Controller::new();
    c.new_level();
    assert_eq!(c.command(parse_commands("/ammo 4")), Reply::SetAmmo(4));
    assert_eq!(c.command(parse_commands("/ammo four")), Reply::NotANumber);
    assert_eq!(c.command(parse_commands("help")), Reply::Usage);
    assert_eq!(c.world().next_id(), 7);
    assert_eq!(c.level().0, "shotgun_1");
}
