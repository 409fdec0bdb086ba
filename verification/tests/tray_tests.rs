use limusic::tray::{menu_command, play_pause_label, MenuCommand};

#[test]
fn menu_ids_are_the_contract() {
    assert_eq!(menu_command("show"), MenuCommand::Show);
    assert_eq!(menu_command("quit"), MenuCommand::Quit);
    assert_eq!(menu_command("restart"), MenuCommand::Restart);
    assert_eq!(menu_command("play_pause"), MenuCommand::PlayPause);
    assert_eq!(menu_command("next"), MenuCommand::Next);
    assert_eq!(menu_command("prev"), MenuCommand::Prev);
    assert_eq!(menu_command("Show"), MenuCommand::Nothing);
    assert_eq!(play_pause_label(true), "Pause");
    assert_eq!(play_pause_label(false), "Play");
}
