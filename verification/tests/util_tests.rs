use synacor_vm::loader::{bytes_from_words, sequence_decypher, words_from_bytes};
use synacor_vm::patch::{apply_segments, hex_num, Segment, SegmentError};
use synacor_vm::route::{generate_map, Route, StepDirection, TileContent};
use synacor_vm::ui_input::{
    parse_dec_u32, parse_hex_u16, resolve_input, BaseHandler, InputDestination, InputDone,
    InputEvent, InputField, InputResolution, MenuMode, PopupMenu, WrappedHandlers,
};
use synacor_vm::interface::VmInstruction;

#[test]
fn loader_pairs_little_endian_bytes() {
    assert_eq!(words_from_bytes(&[0x01, 0x02, 0xFF, 0x7F]), vec![0x0201, 0x7FFF]);
    // An odd trailing byte gets a zero high byte.
    assert_eq!(words_from_bytes(&[0x13, 0x00, 0x48]), vec![0x0013, 0x0048]);
    assert_eq!(words_from_bytes(&[]), Vec::<u16>::new());
}

#[test]
fn loader_round_trips_even_streams() {
    let bytes: Vec<u8> = vec![1, 2, 3, 4, 5, 6];
    assert_eq!(bytes_from_words(&words_from_bytes(&bytes)), bytes);
    // An odd stream comes back with one zero byte appended.
    let odd: Vec<u8> = vec![9, 8, 7];
    assert_eq!(bytes_from_words(&words_from_bytes(&odd)), vec![9, 8, 7, 0]);
    // Words always round-trip.
    let words: Vec<u16> = vec![0, 0x7FFF, 0x8000, 0xFFFF];
    assert_eq!(words_from_bytes(&bytes_from_words(&words)), words);
}

#[test]
fn raw_hex_sequences_decode_low_byte_first() {
    assert_eq!(sequence_decypher("13004800"), Some(vec![0x0013, 0x0048]));
    assert_eq!(sequence_decypher("0102"), Some(vec![0x0201]));
    // Trailing characters short of a group are ignored.
    assert_eq!(sequence_decypher("010212"), Some(vec![0x0201]));
    assert_eq!(sequence_decypher(""), Some(Vec::new()));
    assert_eq!(sequence_decypher("01xx"), None);
}

#[test]
fn hex_num_accepts_both_cases() {
    assert!(hex_num('0'));
    assert!(hex_num('9'));
    assert!(hex_num('a'));
    assert!(hex_num('F'));
    assert!(!hex_num('g'));
    assert!(!hex_num(':'));
}

#[test]
fn segments_parse_and_reject() {
    let seg = Segment::parse_arg("0002:0102").unwrap();
    assert_eq!(seg.start_address, 2);
    // The two bytes of each word group are swapped on parse.
    assert_eq!(seg.data, vec![0x02, 0x01]);

    let seg = Segment::parse_arg("00ff:AABBCCDD").unwrap();
    assert_eq!(seg.start_address, 0xFF);
    assert_eq!(seg.data, vec![0xBB, 0xAA, 0xDD, 0xCC]);

    assert_eq!(Segment::parse_arg("12"), Err(SegmentError::MalformedArgument));
    assert_eq!(Segment::parse_arg("00001:0102"), Err(SegmentError::MalformedArgument));
    assert_eq!(Segment::parse_arg("zzzz:0102"), Err(SegmentError::MalformedAddress));
    assert_eq!(Segment::parse_arg("0000:01023"), Err(SegmentError::MalformedData));
    assert_eq!(Segment::parse_arg("0000:01xx"), Err(SegmentError::MalformedData));
}

#[test]
fn segments_overwrite_words_in_order() {
    let mut image: Vec<u8> = vec![0; 10];
    let segs = vec![
        Segment { start_address: 1, data: vec![0xAA, 0xBB, 0xCC, 0xDD] },
        Segment { start_address: 2, data: vec![0x11, 0x22] },
    ];
    apply_segments(&mut image, &segs);
    // The first segment wrote bytes 2..6; the second overwrote 4..6.
    assert_eq!(image, vec![0, 0, 0xAA, 0xBB, 0x11, 0x22, 0, 0, 0, 0]);
}

#[test]
fn map_tiles_are_fixed() {
    let map = generate_map();
    assert!(matches!(map[0], TileContent::Value(22)));
    assert!(matches!(map[1], TileContent::Plus));
    assert!(matches!(map[15], TileContent::Value(1)));
}

#[test]
fn empty_route_is_viable() {
    let route = Route::new();
    assert_eq!(route.step_count, 0);
    assert!(route.verify());
}

#[test]
fn route_leaving_the_grid_is_rejected() {
    let mut route = Route::new();
    route.steps[0] = StepDirection::West;
    assert!(!route.verify());
    let mut route = Route::new();
    route.steps[0] = StepDirection::South;
    assert!(!route.verify());
}

#[test]
fn route_that_drops_the_orb_is_rejected() {
    // North to '+', North to 4 (26), West is off-grid from x=0? No:
    // West moves -4 cells. Use: N (+), N (4): weight 26; then S back to
    // '+', S to start tile 22: applies + 22 -> 48; all fine. Instead
    // drive the weight down: E (-), E (9): 22 - 9 = 13; W (-), W (22):
    // 13 <= 22 rejects.
    let mut route = Route::new();
    route.steps[0] = StepDirection::East;
    route.steps[1] = StepDirection::East;
    route.steps[2] = StepDirection::West;
    route.steps[3] = StepDirection::West;
    route.step_count = 4;
    assert!(!route.verify());
}

#[test]
fn route_weights_follow_the_tiles() {
    // N: '+' tile; N: value 4 -> 22 + 4 = 26; stays on grid and short
    // enough to finish.
    let mut route = Route::new();
    route.steps[0] = StepDirection::North;
    route.steps[1] = StepDirection::North;
    route.step_count = 2;
    assert!(route.verify());
    // A route of fifteen steps that ends far from the exit fails the
    // length check: 14 steps bouncing, ending at distance 6.
    let mut route = Route::new();
    for i in 0..14 {
        route.steps[i] = if i % 2 == 0 { StepDirection::North } else { StepDirection::South };
    }
    route.step_count = 14;
    assert!(!route.verify());
}

#[test]
fn input_field_collects_typed_characters() {
    let mut field = InputField::new("title", "0123456789", 4, InputDestination::ProgramCounter,
        false);
    assert!(matches!(field.handle_input(InputEvent::Character('1')), InputDone::Keep));
    assert!(matches!(field.handle_input(InputEvent::Character('x')), InputDone::Keep));
    assert!(matches!(field.handle_input(InputEvent::Character('2')), InputDone::Keep));
    assert_eq!(field.buffer, "12");
    field.handle_input(InputEvent::Backspace);
    assert_eq!(field.buffer, "1");
    match field.handle_input(InputEvent::Enter) {
        InputDone::Input(dest, text) => {
            assert!(matches!(dest, InputDestination::ProgramCounter));
            assert_eq!(text, "1");
        }
        other => panic!("unexpected: {:?}", other),
    }
}

#[test]
fn vm_input_field_appends_newline_and_escapes_to_menu() {
    let mut field = InputField::new("Input", "abc", 80, InputDestination::Input, true);
    field.handle_input(InputEvent::Character('a'));
    match field.handle_input(InputEvent::Enter) {
        InputDone::Input(InputDestination::Input, text) => assert_eq!(text, "a\n"),
        other => panic!("unexpected: {:?}", other),
    }
    match field.handle_input(InputEvent::Escape) {
        InputDone::Push(WrappedHandlers::PopupMenu(menu)) => {
            assert_eq!(menu.menu_mode, MenuMode::Main)
        }
        other => panic!("unexpected: {:?}", other),
    }
    let mut plain = InputField::new("t", "abc", 4, InputDestination::SaveMemory, false);
    assert!(matches!(plain.handle_input(InputEvent::Escape), InputDone::Discard));
}

#[test]
fn menu_navigation_by_initial_letter() {
    let mut menu = PopupMenu::new();
    assert!(matches!(menu.handle_input(InputEvent::Character('r')), InputDone::Keep));
    assert_eq!(menu.menu_mode, MenuMode::RunModes);
    match menu.handle_input(InputEvent::Character('u')) {
        InputDone::Push(WrappedHandlers::InputField(f)) => {
            assert_eq!(f.title, "Run until address #");
            assert!(matches!(f.destination, InputDestination::PauseAfterAddress));
            assert_eq!(f.max_len, 4);
        }
        other => panic!("unexpected: {:?}", other),
    }
    assert!(matches!(menu.handle_input(InputEvent::Escape), InputDone::Keep));
    assert_eq!(menu.menu_mode, MenuMode::Main);
    assert!(matches!(menu.handle_input(InputEvent::Character('q')), InputDone::Quit));
    assert!(matches!(menu.handle_input(InputEvent::Escape), InputDone::Discard));
}

#[test]
fn base_handler_runs_and_steps() {
    let mut base = BaseHandler::new();
    assert!(matches!(base.handle_input(InputEvent::Character(' ')), InputDone::Run));
    assert!(matches!(base.handle_input(InputEvent::Tab), InputDone::Step));
    assert!(matches!(base.handle_input(InputEvent::Character('.')), InputDone::Step));
    assert!(matches!(base.handle_input(InputEvent::Character('z')), InputDone::Keep));
    match base.handle_input(InputEvent::Escape) {
        InputDone::Push(WrappedHandlers::PopupMenu(_)) => {}
        other => panic!("unexpected: {:?}", other),
    }
}

#[test]
fn wrapped_handlers_dispatch() {
    let mut h = WrappedHandlers::input_field("t", "ab", 2, InputDestination::Input, false);
    assert!(matches!(h.handle_input(InputEvent::Character('a')), InputDone::Keep));
    let mut h = WrappedHandlers::BaseHandler(BaseHandler::new());
    assert!(matches!(h.handle_input(InputEvent::Tab), InputDone::Step));
}

#[test]
fn number_parsing() {
    assert_eq!(parse_hex_u16("17a1"), Some(0x17A1));
    assert_eq!(parse_hex_u16("FFFF"), Some(0xFFFF));
    assert_eq!(parse_hex_u16("0"), Some(0));
    assert_eq!(parse_hex_u16(""), None);
    assert_eq!(parse_hex_u16("10000"), None);
    assert_eq!(parse_hex_u16("12g4"), None);
    assert_eq!(parse_dec_u32("1234"), Some(1234));
    assert_eq!(parse_dec_u32(""), None);
    assert_eq!(parse_dec_u32("12a"), None);
    assert_eq!(parse_dec_u32("4294967295"), Some(0xFFFFFFFF));
    assert_eq!(parse_dec_u32("4294967296"), None);
}

#[test]
fn completed_inputs_resolve_to_messages() {
    match resolve_input(InputDestination::Input, String::from("look\n")) {
        InputResolution::SendInput(text) => assert_eq!(text, "look\n"),
        other => panic!("unexpected: {:?}", other),
    }
    assert_eq!(
        resolve_input(InputDestination::ProgramCounter, String::from("17a1")),
        InputResolution::Message(VmInstruction::SetProgramCounter(0x17A1))
    );
    assert_eq!(
        resolve_input(InputDestination::PauseAfterCount, String::from("25")),
        InputResolution::Message(VmInstruction::RunForSteps(25))
    );
    assert_eq!(
        resolve_input(InputDestination::PauseAfterAddress, String::from("00ff")),
        InputResolution::Message(VmInstruction::RunUntilAddress(0xFF))
    );
    assert_eq!(
        resolve_input(InputDestination::SetDelay, String::from("100")),
        InputResolution::Message(VmInstruction::SetCommandDelay(100, true))
    );
    assert_eq!(
        resolve_input(InputDestination::RegisterNumber, String::from("3")),
        InputResolution::PushRegisterField(3)
    );
    assert_eq!(
        resolve_input(InputDestination::RegisterValue(3), String::from("7fff")),
        InputResolution::Message(VmInstruction::SetRegister(3, 0x7FFF))
    );
    assert_eq!(
        resolve_input(InputDestination::SaveMemory, String::from("mem.txt")),
        InputResolution::Message(VmInstruction::SaveMemory(String::from("mem.txt")))
    );
    assert_eq!(
        resolve_input(InputDestination::TraceOperations, String::from("t.txt")),
        InputResolution::Message(VmInstruction::TraceOperations(String::from("t.txt")))
    );
    assert_eq!(
        resolve_input(InputDestination::TraceStop, String::from("")),
        InputResolution::Message(VmInstruction::TraceStop)
    );
    assert_eq!(
        resolve_input(InputDestination::ProgramCounter, String::from("xyz")),
        InputResolution::Invalid
    );
}

#[test]
fn menu_ignores_unlisted_keys() {
    let mut menu = PopupMenu::new();
    assert!(matches!(menu.handle_input(InputEvent::Character('z')), InputDone::Keep));
    assert_eq!(menu.menu_mode, MenuMode::Main);
    assert!(matches!(menu.handle_input(InputEvent::Tab), InputDone::Keep));
    assert_eq!(menu.menu_mode, MenuMode::Main);
    menu.handle_input(InputEvent::Character('f'));
    assert!(matches!(menu.handle_input(InputEvent::Character('q')), InputDone::Keep));
    assert_eq!(menu.menu_mode, MenuMode::FileOptions);
}
