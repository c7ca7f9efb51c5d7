use vcd30_player::assets::chm::MicroScriptOp;
use vcd30_player::interactive::kernel::{execute_micro_script, var_name_to_index, KaraokePlaylist};
use vcd30_player::interactive::script_ast::{BinOp, CondOp, Expr, ScriptProgram, Statement};
use vcd30_player::interactive::script_vm::{VcdScriptVm, VmHost, VmState};

#[derive(Default)]
struct MockHost {
    images_drawn: Vec<(String, i32, i32, i32)>,
    cursors_drawn: Vec<(i32, i32)>,
    sounds_played: Vec<String>,
    karaoke_settings: Vec<(i32, i32)>,
    time_ms: u64,
}

impl VmHost for MockHost {
    fn draw_image(&mut self, filename: &str, x: i32, y: i32, mode: i32) {
        self.images_drawn.push((filename.to_string(), x, y, mode));
    }
    fn draw_cursor(&mut self, x: i32, y: i32) {
        self.cursors_drawn.push((x, y));
    }
    fn play_sound(&mut self, filename: &str) {
        self.sounds_played.push(filename.to_string());
    }
    fn play_video(&mut self, _filename: &str, _start: i32, _end: i32, _exit_page: Option<&str>) {}
    fn karaoke_set(&mut self, channel: i32, mode: i32) {
        self.karaoke_settings.push((channel, mode));
    }
    fn get_time_ms(&self) -> u64 {
        self.time_ms
    }
}

#[derive(Default)]
struct MockKaraokeHost {
    playlist: KaraokePlaylist,
    video_played: Option<String>,
    time_units: i32,
}

impl VmHost for MockKaraokeHost {
    fn draw_image(&mut self, _filename: &str, _x: i32, _y: i32, _mode: i32) {}
    fn draw_cursor(&mut self, _x: i32, _y: i32) {}
    fn play_sound(&mut self, _filename: &str) {}
    fn play_video(&mut self, filename: &str, _start: i32, _end: i32, _exit_page: Option<&str>) {
        self.video_played = Some(filename.to_string());
    }
    fn karaoke_set(&mut self, index: i32, val: i32) {
        self.playlist.set(index, val);
    }
    fn karaoke_get(&self, index: i32) -> i32 {
        self.playlist.get(index)
    }
    fn karaoke_del(&mut self, index: i32) {
        self.playlist.del(index);
    }
    fn karaoke_ins(&mut self, index: i32, val: i32) {
        self.playlist.ins(index, val);
    }
    fn karaoke_play(&mut self) -> bool {
        let song_id = match self.playlist.play() {
            Some(id) => id,
            None => return false,
        };
        let track = if song_id < 10 {
            format!("MPEGAV/MUSIC0{}.DAT", song_id)
        } else {
            format!("MPEGAV/MUSIC{}.DAT", song_id)
        };
        self.video_played = Some(track);
        true
    }
    fn get_time_ms(&self) -> u64 {
        12345
    }
    fn get_time_units(&self) -> i32 {
        self.time_units
    }
}

#[test]
fn test_parse_simple_statements() {
    let code = r#"
20 S = -10 : W = 0 : H = 0
40 DRAWCURSOR 272,123
50 CALL IRKEY(X)
55 IF X = 31 THEN GOTO 100
105 DRAWIMAGE "W_MAN.YBM",30,109,0
120 GOTO 200
9000 GOSUB 4000+A
9020 RETURN
95 END
"#;
    let prog = ScriptProgram::parse(code);
    assert_eq!(prog.lines.len(), 9);

    let line20 = &prog.lines[&20];
    assert_eq!(line20.len(), 3);
    assert_eq!(
        line20[0],
        Statement::Assign(b'S', Expr::Binary(Box::new(Expr::Const(0)), BinOp::Sub, Box::new(Expr::Const(10))))
    );
    assert_eq!(line20[1], Statement::Assign(b'W', Expr::Const(0)));
    assert_eq!(line20[2], Statement::Assign(b'H', Expr::Const(0)));

    let line40 = &prog.lines[&40];
    assert_eq!(line40[0], Statement::DrawCursor(Expr::Const(272), Expr::Const(123)));

    let line50 = &prog.lines[&50];
    assert_eq!(line50[0], Statement::CallIrkey(b'X'));

    let line55 = &prog.lines[&55];
    assert_eq!(
        line55[0],
        Statement::IfThen {
            lhs: Expr::Var(b'X'),
            op: CondOp::Eq,
            rhs: Expr::Const(31),
            then_stmt: Box::new(Statement::Goto(Expr::Const(100))),
            else_stmt: None,
        }
    );

    let line105 = &prog.lines[&105];
    assert_eq!(
        line105[0],
        Statement::DrawImage {
            file: "W_MAN.YBM".to_string(),
            x: Expr::Const(30),
            y: Expr::Const(109),
            mode: Expr::Const(0)
        }
    );

    let line9000 = &prog.lines[&9000];
    assert_eq!(
        line9000[0],
        Statement::Gosub(Expr::Binary(Box::new(Expr::Const(4000)), BinOp::Add, Box::new(Expr::Var(b'A'))))
    );
}

#[test]
fn test_unrecognized_instruction_captured() {
    let code = "999 FOOBAR BAZ 123\n1000 DRAWIMAGE";
    let prog = ScriptProgram::parse(code);
    let l999 = &prog.lines[&999];
    assert!(matches!(&l999[0], Statement::Unknown { raw, .. } if raw == "FOOBAR BAZ 123"));
    let l1000 = &prog.lines[&1000];
    assert!(matches!(&l1000[0], Statement::Unknown { .. }));
}

#[test]
fn try_parse_accepts_ascii_scripts() {
    assert!(ScriptProgram::try_parse("10 A = 1\n20 END").is_some());
}

#[test]
fn test_vm_arithmetic_and_gosub() {
    let code = r#"
10 A = 10 : B = A * 2 + 5
20 GOSUB 100
30 END
100 C = A + B
110 RETURN
"#;
    let prog = ScriptProgram::parse(code);
    let mut vm = VcdScriptVm::new();
    let mut host = MockHost::default();
    vm.load_program(prog);
    let state = vm.run_until_yield(&mut host);
    assert_eq!(state, VmState::Finished);
    assert_eq!(vm.get_variable(b'A'), 10);
    assert_eq!(vm.get_variable(b'B'), 25);
    assert_eq!(vm.get_variable(b'C'), 35);
}

#[test]
fn test_vm_unrecognized_instruction_alert_and_skip() {
    let code = r#"
10 A = 5
20 INVALID_OPCODE_TEST 12345
30 A = A + 10
40 END
"#;
    let prog = ScriptProgram::parse(code);
    let mut vm = VcdScriptVm::new();
    let mut host = MockHost::default();
    vm.load_program(prog);
    let state1 = vm.run_until_yield(&mut host);
    match state1 {
        VmState::PausedForAlert(alert) => {
            assert_eq!(alert.line_no, 20);
            assert!(alert.raw_code.contains("INVALID_OPCODE_TEST"));
        }
        other => panic!("Expected PausedForAlert, got {:?}", other),
    }
    let state2 = vm.skip_unrecognized_and_continue(&mut host);
    assert_eq!(state2, VmState::Finished);
    assert_eq!(vm.get_variable(b'A'), 15);
}

#[test]
fn test_vm_call_irkey_waiting_and_inject() {
    let code = r#"
10 S = 0
20 CALL IRKEY(K)
30 IF K = 31 THEN S = 100
40 END
"#;
    let prog = ScriptProgram::parse(code);
    let mut vm = VcdScriptVm::new();
    let mut host = MockHost::default();
    vm.load_program(prog);
    let state1 = vm.run_until_yield(&mut host);
    assert_eq!(state1, VmState::WaitingForKey { target_var: b'K' });
    assert_eq!(vm.get_variable(b'S'), 0);
    let state2 = vm.inject_key(31, &mut host);
    assert_eq!(state2, VmState::Finished);
    assert_eq!(vm.get_variable(b'K'), 31);
    assert_eq!(vm.get_variable(b'S'), 100);
}

#[test]
fn vm_draws_and_plays() {
    let code = "10 DRAWIMAGE \"A.YBM\",1,2,3 : DRAWCURSOR 4,5 : PLAYSOUND \"S.WAV\"\n20 END";
    let prog = ScriptProgram::parse(code);
    let mut vm = VcdScriptVm::new();
    let mut host = MockHost::default();
    vm.load_program(prog);
    assert_eq!(vm.run_until_yield(&mut host), VmState::Finished);
    assert_eq!(host.images_drawn, vec![("A.YBM".to_string(), 1, 2, 3)]);
    assert_eq!(host.cursors_drawn, vec![(4, 5)]);
}

#[test]
fn vm_division_by_zero_gives_zero() {
    let code = "10 A = 7 / 0 : B = -7 / 2\n20 END";
    let mut vm = VcdScriptVm::new();
    let mut host = MockHost::default();
    vm.load_program(ScriptProgram::parse(code));
    assert_eq!(vm.run_until_yield(&mut host), VmState::Finished);
    assert_eq!(vm.get_variable(b'A'), 0);
    assert_eq!(vm.get_variable(b'B'), -3);
}

#[test]
fn vm_for_next_loop() {
    let code = "10 S = 0\n20 FOR I = 1 TO 4\n30 S = S + I\n40 NEXT I\n50 END";
    let mut vm = VcdScriptVm::new();
    let mut host = MockHost::default();
    vm.load_program(ScriptProgram::parse(code));
    assert_eq!(vm.run_until_yield(&mut host), VmState::Finished);
    assert_eq!(vm.get_variable(b'S'), 10);
}

#[test]
fn test_call_rand_prng_execution() {
    let code = r#"
10 CALL RAND(N)
20 CALL RAND(M)
30 A = N - (N / 20) * 20
40 END
"#;
    let prog = ScriptProgram::parse(code);
    let mut vm = VcdScriptVm::new();
    let mut host = MockKaraokeHost::default();
    vm.load_program(prog);
    let state = vm.run_until_yield(&mut host);
    assert_eq!(state, VmState::Finished);
    let n = vm.get_variable(b'N');
    let m = vm.get_variable(b'M');
    let a = vm.get_variable(b'A');
    assert!(n > 0, "N should be positive, got {}", n);
    assert!(m > 0, "M should be positive, got {}", m);
    assert_ne!(n, m, "Two consecutive RAND calls should produce different values");
    assert!(a >= 0 && a < 20, "N % 20 must be in 0..=19, got {}", a);
}

#[test]
fn test_karaoke_playlist_operations() {
    let code = r#"
10 KARAOKE SET 1, 4
20 KARAOKE SET 2, 8
30 KARAOKE GET 1, A
40 KARAOKE GET 2, B
50 KARAOKE INS 2, 6
60 KARAOKE GET 2, C
70 KARAOKE GET 3, D
80 KARAOKE DEL 1
90 KARAOKE GET 1, E
100 KARAOKE GET 3, F
110 END
"#;
    let prog = ScriptProgram::parse(code);
    let mut vm = VcdScriptVm::new();
    let mut host = MockKaraokeHost::default();
    vm.load_program(prog);
    let state = vm.run_until_yield(&mut host);
    assert_eq!(state, VmState::Finished);
    assert_eq!(vm.get_variable(b'A'), 4);
    assert_eq!(vm.get_variable(b'B'), 8);
    assert_eq!(vm.get_variable(b'C'), 6);
    assert_eq!(vm.get_variable(b'D'), 8);
    assert_eq!(vm.get_variable(b'E'), 6);
    assert_eq!(vm.get_variable(b'F'), -1);
}

#[test]
fn test_karaoke_play_video_triggering() {
    let code = r#"
10 KARAOKE SET 1, 7
20 KARAOKE PLAY
30 END
"#;
    let prog = ScriptProgram::parse(code);
    let mut vm = VcdScriptVm::new();
    let mut host = MockKaraokeHost::default();
    vm.load_program(prog);
    let state = vm.run_until_yield(&mut host);
    assert_eq!(state, VmState::WaitingForVideo);
    assert_eq!(host.video_played.as_deref(), Some("MPEGAV/MUSIC07.DAT"));
    assert!(host.playlist.is_empty(), "Song 1 should have been popped from playlist");
}

#[test]
fn test_typo_resilience_kraroke_and_drawimgae() {
    let code = r#"
10 KRAROKE SET 1, 5
20 KRAROKE GET 1, N
30 KRARAOKE GET 1, M
40 DRAWIMGAE "KARA_N01.YBM", 10, 20, 0
50 END
"#;
    let prog = ScriptProgram::parse(code);
    let mut vm = VcdScriptVm::new();
    let mut host = MockKaraokeHost::default();
    vm.load_program(prog);
    let mut state = vm.run_until_yield(&mut host);
    while matches!(state, VmState::WaitingForDelay { .. }) {
        host.time_units += 4;
        state = vm.run_until_yield(&mut host);
    }
    assert_eq!(state, VmState::Finished);
    assert_eq!(vm.get_variable(b'N'), 5);
    assert_eq!(vm.get_variable(b'M'), 5);
}

#[test]
fn test_if_then_else_parsing_and_execution() {
    let code = r#"
10 X = 5
20 IF X = 10 THEN Y = 100 ELSE Y = 200
30 IF X = 5 THEN Z = 300 ELSE Z = 400
40 END
"#;
    let prog = ScriptProgram::parse(code);
    let mut vm = VcdScriptVm::new();
    let mut host = MockKaraokeHost::default();
    vm.load_program(prog);
    let state = vm.run_until_yield(&mut host);
    assert_eq!(state, VmState::Finished);
    assert_eq!(vm.get_variable(b'Y'), 200, "ELSE branch should execute when cond false");
    assert_eq!(vm.get_variable(b'Z'), 300, "THEN branch should execute when cond true");
}

struct TestHost {
    video_played: Option<(String, i32, i32, Option<String>)>,
}

impl VmHost for TestHost {
    fn draw_image(&mut self, _filename: &str, _x: i32, _y: i32, _mode: i32) {}
    fn draw_cursor(&mut self, _x: i32, _y: i32) {}
    fn play_sound(&mut self, _filename: &str) {}
    fn play_video(&mut self, filename: &str, start_frame: i32, end_frame: i32, exit_page: Option<&str>) {
        self.video_played = Some((filename.to_string(), start_frame, end_frame, exit_page.map(|s| s.to_string())));
    }
    fn karaoke_set(&mut self, _channel: i32, _mode: i32) {}
    fn get_time_ms(&self) -> u64 {
        0
    }
}

#[test]
fn test_playvideo_script_parsing_and_vm_execution() {
    let script = r#"
100 PLAYVIDEO "MUSIC02.DAT",0,21775,"HOME.CHM"
200 END
"#;
    let prog = ScriptProgram::parse(script);
    let stmts_100 = prog.lines.get(&100).expect("Line 100 missing");
    assert_eq!(stmts_100.len(), 1);
    match &stmts_100[0] {
        Statement::PlayVideo { file, exit_page, .. } => {
            assert_eq!(file, "MUSIC02.DAT");
            assert_eq!(exit_page.as_deref(), Some("HOME.CHM"));
        }
        other => panic!("Expected Statement::PlayVideo, got {:?}", other),
    }
    let mut vm = VcdScriptVm::new();
    vm.load_program(prog);
    let mut host = TestHost { video_played: None };
    let state = vm.run_until_yield(&mut host);
    assert_eq!(state, VmState::WaitingForVideo);
    assert_eq!(
        host.video_played,
        Some(("MUSIC02.DAT".to_string(), 0, 21775, Some("HOME.CHM".to_string())))
    );
}

#[test]
fn test_var_name_to_index_and_micro_scripts() {
    assert_eq!(var_name_to_index("i_a"), Some(0));
    assert_eq!(var_name_to_index("i_b"), Some(1));
    assert_eq!(var_name_to_index("i_e"), Some(4));
    assert_eq!(var_name_to_index("i_f"), Some(5));
    assert_eq!(var_name_to_index("A"), Some(0));
    assert_eq!(var_name_to_index("e"), Some(4));
    assert_eq!(var_name_to_index("10"), None);
    assert_eq!(var_name_to_index(""), None);

    let mut vars = [0i32; 26];
    assert_eq!(vars[4], 0);
    let add_op = MicroScriptOp { target_var: "i_e".to_string(), op1: "i_e".to_string(), opcode: 0, op2: "10".to_string() };
    execute_micro_script(&mut vars, &add_op);
    assert_eq!(vars[4], 10);
    execute_micro_script(&mut vars, &add_op);
    assert_eq!(vars[4], 20);
    let sub_op = MicroScriptOp { target_var: "i_e".to_string(), op1: "i_e".to_string(), opcode: 1, op2: "5".to_string() };
    execute_micro_script(&mut vars, &sub_op);
    assert_eq!(vars[4], 15);
    let mul_op = MicroScriptOp { target_var: "i_e".to_string(), op1: "i_e".to_string(), opcode: 2, op2: "2".to_string() };
    execute_micro_script(&mut vars, &mul_op);
    assert_eq!(vars[4], 30);
    let reset_op = MicroScriptOp { target_var: "i_e".to_string(), op1: "0".to_string(), opcode: 0, op2: "".to_string() };
    execute_micro_script(&mut vars, &reset_op);
    assert_eq!(vars[4], 0);
}
