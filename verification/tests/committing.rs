use randr_profiles::batch::{batch_failures, status_failure, Failure};
use randr_profiles::commit::{commit_steps, Step};
use randr_profiles::pass::{apply_config, crtcs_to_read, outputs_in_conf, Commit, Configured, Screen};
use randr_profiles::requests::{disable_crtc, disable_request, enable_request};
use randr_profiles::config::{Config, ConfigEntry, Mode, MonConfig, Monitor, Position, SingleConfig};
use randr_profiles::control::{announces, next, Action, Event, State};
use randr_profiles::error::Error;
use randr_profiles::matcher::get_config;
use randr_profiles::modes::mode_map;
use randr_profiles::server::{CrtcInfo, CrtcRequest, ModeInfo, OutputInfo};

fn conf(name: &str, w: u16, h: u16, x: i16, y: i16) -> MonConfig {
    MonConfig { name: name.to_string(), mode: Mode { w, h }, position: Position { x, y } }
}

fn crtc_info(x: i16, y: i16, mode: u32, outputs: Vec<u32>) -> CrtcInfo {
    CrtcInfo { timestamp: 1000, x, y, mode, rotation: 1, outputs }
}

fn request(crtc: u32, x: i16, y: i16, mode: u32, output: Option<u32>) -> CrtcRequest {
    CrtcRequest { crtc, timestamp: 1000, config_timestamp: 1000, x, y, mode, rotation: 1, output }
}

fn modes() -> Vec<ModeInfo> {
    vec![
        ModeInfo { id: 100, width: 1920, height: 1080 },
        ModeInfo { id: 101, width: 1280, height: 1024 },
        ModeInfo { id: 102, width: 1920, height: 1080 },
    ]
}

fn screen(crtc_infos: Vec<(u32, CrtcInfo)>, size: Mode) -> Screen {
    Screen { crtcs: crtc_infos.iter().map(|p| p.0).collect(), modes: mode_map(&modes()), crtc_infos, size }
}

fn configured(output: u32, conf: MonConfig, crtc: u32, crtcs: Vec<u32>, modes: Vec<u32>) -> Configured {
    Configured { output, conf, info: OutputInfo { crtc, crtcs, modes, mm_width: 500, mm_height: 300 } }
}

#[test]
fn disable_keeps_position_and_rotation() {
    let info = CrtcInfo { timestamp: 77, x: 5, y: -6, mode: 9, rotation: 4, outputs: vec![1] };
    assert_eq!(
        disable_crtc(40, &info),
        CrtcRequest {
            crtc: 40,
            timestamp: 77,
            config_timestamp: 77,
            x: 5,
            y: -6,
            mode: 0,
            rotation: 4,
            output: None
        }
    );
}

#[test]
fn enable_request_carries_position_mode_and_output() {
    let info = CrtcInfo { timestamp: 77, x: 5, y: 6, mode: 9, rotation: 4, outputs: vec![] };
    assert_eq!(
        enable_request(70, &conf("left", 1920, 1080, 10, 20), 100, 40, 0, &info),
        Some(CrtcRequest {
            crtc: 40,
            timestamp: 77,
            config_timestamp: 77,
            x: 10,
            y: 20,
            mode: 100,
            rotation: 1,
            output: Some(70)
        })
    );
}

#[test]
fn enable_request_is_skipped_when_settled() {
    let info = crtc_info(10, 20, 100, vec![70]);
    assert_eq!(enable_request(70, &conf("left", 1920, 1080, 10, 20), 100, 40, 40, &info), None);
    assert!(enable_request(70, &conf("left", 1920, 1080, 11, 20), 100, 40, 40, &info).is_some());
    assert!(enable_request(70, &conf("left", 1920, 1080, 10, 21), 100, 40, 40, &info).is_some());
    assert!(enable_request(70, &conf("left", 1920, 1080, 10, 20), 102, 40, 40, &info).is_some());
    assert!(enable_request(70, &conf("left", 1920, 1080, 10, 20), 100, 40, 0, &info).is_some());
    assert!(enable_request(70, &conf("left", 1920, 1080, 10, 20), 100, 40, 41, &info).is_some());
}

#[test]
fn idle_controller_needs_no_disable() {
    assert_eq!(disable_request(40, &crtc_info(0, 0, 0, vec![])), None);
    assert_eq!(disable_request(40, &crtc_info(3, 4, 100, vec![])), Some(request(40, 3, 4, 0, None)));
    assert_eq!(disable_request(40, &crtc_info(3, 4, 0, vec![70])), Some(request(40, 3, 4, 0, None)));
}

#[test]
fn outputs_are_taken_in_server_order() {
    let setup = vec![(72, conf("c", 1, 1, 0, 0)), (70, conf("a", 2, 2, 0, 0))];
    let picked = outputs_in_conf(&vec![70, 71, 72], &setup);
    assert_eq!(picked, vec![(70, conf("a", 2, 2, 0, 0)), (72, conf("c", 1, 1, 0, 0))]);
}

#[test]
fn nothing_to_do_sends_nothing() {
    let size = Mode { w: 1920, h: 1080 };
    let (changed, steps) = commit_steps(Vec::new(), Vec::new(), size, &size);
    assert!(!changed);
    assert_eq!(steps, Vec::<Step>::new());
}

#[test]
fn size_alone_makes_a_change() {
    let (changed, steps) =
        commit_steps(Vec::new(), Vec::new(), Mode { w: 1920, h: 1080 }, &Mode { w: 1280, h: 1024 });
    assert!(changed);
    assert_eq!(steps, vec![Step::Batch(Vec::new()), Step::Resize(Mode { w: 1280, h: 1024 })]);
}

#[test]
fn a_queue_alone_makes_a_change() {
    let size = Mode { w: 1920, h: 1080 };
    let off = request(41, 0, 0, 0, None);
    let on = request(40, 0, 0, 100, Some(70));
    let (changed, steps) = commit_steps(vec![off], Vec::new(), size, &size);
    assert!(changed);
    assert_eq!(steps, vec![Step::Batch(vec![off]), Step::Batch(Vec::new())]);
    let (changed, steps) = commit_steps(Vec::new(), vec![on], size, &size);
    assert!(changed);
    assert_eq!(steps, vec![Step::Batch(vec![on])]);
}

#[test]
fn growing_comes_before_the_enables() {
    let on = request(40, 0, 0, 100, Some(70));
    let (changed, steps) =
        commit_steps(Vec::new(), vec![on], Mode { w: 1280, h: 1024 }, &Mode { w: 3200, h: 1080 });
    assert!(changed);
    assert_eq!(steps, vec![Step::Resize(Mode { w: 3200, h: 1080 }), Step::Batch(vec![on])]);
}

#[test]
fn shrinking_comes_last() {
    let off = request(41, 0, 0, 0, None);
    let on = request(40, 0, 0, 100, Some(70));
    let (changed, steps) =
        commit_steps(vec![off], vec![on], Mode { w: 3200, h: 1080 }, &Mode { w: 1920, h: 1080 });
    assert!(changed);
    assert_eq!(
        steps,
        vec![Step::Batch(vec![off]), Step::Batch(vec![on]), Step::Resize(Mode { w: 1920, h: 1080 })]
    );
}

#[test]
fn mixed_sizes_grow_then_shrink() {
    let on = request(40, 0, 0, 100, Some(70));
    let (_, steps) = commit_steps(Vec::new(), vec![on], Mode { w: 1280, h: 1200 }, &Mode { w: 1920, h: 1080 });
    assert_eq!(
        steps,
        vec![
            Step::Resize(Mode { w: 1920, h: 1200 }),
            Step::Batch(vec![on]),
            Step::Resize(Mode { w: 1920, h: 1080 })
        ]
    );
}

#[test]
fn one_monitor_end_to_end() {
    let a = Monitor { vendor0: 'A', vendor1: 'A', vendor2: 'A', product: 1, serial: 1 };
    let b = Monitor { vendor0: 'B', vendor1: 'B', vendor2: 'B', product: 2, serial: 2 };
    let solo = SingleConfig {
        name: "solo".to_string(),
        setup: vec![(a, conf("a", 1920, 1080, 0, 0))],
        fb_size: Mode { w: 1920, h: 1080 },
    };
    let pair = SingleConfig {
        name: "pair".to_string(),
        setup: vec![(a, conf("a", 1920, 1080, 0, 0)), (b, conf("b", 1280, 1024, 1920, 0))],
        fb_size: Mode { w: 3200, h: 1080 },
    };
    let config = Config {
        entries: vec![ConfigEntry { key: vec![a], profile: solo }, ConfigEntry { key: vec![a, b], profile: pair }],
    };
    let found = get_config(&config, &vec![(70, a)]).expect("a match");
    assert_eq!(found.name, "solo");
    let picked = outputs_in_conf(&vec![70, 71], &found.setup);
    assert_eq!(picked, vec![(70, conf("a", 1920, 1080, 0, 0))]);
    let setup = vec![configured(70, picked[0].1.clone(), 0, vec![41, 40], vec![102, 100])];
    let screen = screen(
        vec![(40, crtc_info(0, 0, 0, vec![])), (41, crtc_info(0, 0, 0, vec![]))],
        Mode { w: 1024, h: 768 },
    );
    let commit = apply_config(&screen, &found.fb_size, &setup).expect("a plan");
    assert_eq!(
        commit,
        Commit {
            changed: true,
            steps: vec![
                Step::Resize(Mode { w: 1920, h: 1080 }),
                Step::Batch(vec![request(41, 0, 0, 102, Some(70))]),
            ],
            mm_width: 500,
            mm_height: 300,
        }
    );
}

#[test]
fn existing_controller_is_used_end_to_end() {
    let setup = vec![configured(70, conf("a", 1920, 1080, 0, 0), 40, vec![41, 40], vec![100])];
    let screen = screen(
        vec![(40, crtc_info(0, 0, 101, vec![70])), (41, crtc_info(0, 0, 101, vec![71]))],
        Mode { w: 1920, h: 1080 },
    );
    let commit = apply_config(&screen, &Mode { w: 1920, h: 1080 }, &setup).expect("a plan");
    assert!(commit.changed);
    assert_eq!(
        commit.steps,
        vec![
            Step::Batch(vec![request(41, 0, 0, 0, None)]),
            Step::Batch(vec![request(40, 0, 0, 100, Some(70))]),
        ]
    );
}

#[test]
fn a_settled_screen_is_left_alone() {
    let setup = vec![
        configured(70, conf("a", 1920, 1080, 0, 0), 40, vec![40, 41], vec![100]),
        configured(71, conf("b", 1280, 1024, 1920, 0), 41, vec![40, 41], vec![101]),
    ];
    let screen = screen(
        vec![
            (40, crtc_info(0, 0, 100, vec![70])),
            (41, crtc_info(1920, 0, 101, vec![71])),
            (42, crtc_info(0, 0, 0, vec![])),
        ],
        Mode { w: 3200, h: 1080 },
    );
    let commit = apply_config(&screen, &Mode { w: 3200, h: 1080 }, &setup).expect("a plan");
    assert_eq!(commit, Commit { changed: false, steps: Vec::new(), mm_width: 1000, mm_height: 600 });
}

#[test]
fn a_free_controller_that_looks_right_is_still_bound() {
    let setup = vec![configured(70, conf("a", 1920, 1080, 0, 0), 0, vec![40], vec![100])];
    let screen = screen(vec![(40, crtc_info(0, 0, 100, vec![]))], Mode { w: 1920, h: 1080 });
    let commit = apply_config(&screen, &Mode { w: 1920, h: 1080 }, &setup).expect("a plan");
    assert!(commit.changed);
    assert_eq!(commit.steps, vec![Step::Batch(vec![request(40, 0, 0, 100, Some(70))])]);
}

#[test]
fn incomplete_reading_is_noticed() {
    let setup = vec![configured(70, conf("a", 1920, 1080, 0, 0), 45, vec![40], vec![100])];
    let mut screen = screen(vec![(40, crtc_info(0, 0, 100, vec![]))], Mode { w: 1920, h: 1080 });
    assert!(!screen.is_complete_for(&setup));
    screen.crtc_infos.push((45, crtc_info(0, 0, 0, vec![])));
    assert!(screen.is_complete_for(&setup));
    assert_eq!(screen.crtc_info(45), &crtc_info(0, 0, 0, vec![]));
    screen.crtcs.push(46);
    assert!(!screen.is_complete_for(&setup));
}

#[test]
fn physical_sizes_wrap() {
    let mut first = configured(70, conf("a", 1920, 1080, 0, 0), 40, vec![40], vec![100]);
    first.info.mm_width = u32::MAX;
    first.info.mm_height = 7;
    let mut second = configured(71, conf("b", 1280, 1024, 1920, 0), 41, vec![41], vec![101]);
    second.info.mm_width = 3;
    second.info.mm_height = 8;
    let screen = screen(
        vec![(40, crtc_info(0, 0, 100, vec![70])), (41, crtc_info(1920, 0, 101, vec![71]))],
        Mode { w: 3200, h: 1080 },
    );
    let commit = apply_config(&screen, &Mode { w: 3200, h: 1080 }, &vec![first, second]).expect("a plan");
    assert_eq!(commit.mm_width, 2);
    assert_eq!(commit.mm_height, 15);
}

#[test]
fn pass_fails_on_an_unknown_size() {
    let setup = vec![configured(70, conf("a", 640, 480, 0, 0), 0, vec![40], vec![100])];
    let screen = screen(vec![(40, crtc_info(0, 0, 0, vec![]))], Mode { w: 1920, h: 1080 });
    assert_eq!(
        apply_config(&screen, &Mode { w: 640, h: 480 }, &setup),
        Err(Error::ModeNotFound(Mode { w: 640, h: 480 }))
    );
}

#[test]
fn pass_fails_on_an_unsupported_size() {
    let setup = vec![configured(70, conf("a", 1920, 1080, 0, 0), 0, vec![40], vec![101])];
    let screen = screen(vec![(40, crtc_info(0, 0, 0, vec![]))], Mode { w: 1920, h: 1080 });
    assert_eq!(
        apply_config(&screen, &Mode { w: 1920, h: 1080 }, &setup),
        Err(Error::ModeNotSupported(Mode { w: 1920, h: 1080 }))
    );
}

#[test]
fn pass_fails_when_controllers_run_out() {
    let setup = vec![
        configured(70, conf("a", 1920, 1080, 0, 0), 0, vec![40], vec![100]),
        configured(71, conf("b", 1280, 1024, 1920, 0), 0, vec![40], vec![101]),
    ];
    let screen = screen(vec![(40, crtc_info(0, 0, 0, vec![])), (41, crtc_info(0, 0, 0, vec![]))], Mode { w: 1, h: 1 });
    assert_eq!(apply_config(&screen, &Mode { w: 3200, h: 1080 }, &setup), Err(Error::NoCrtc("b".to_string())));
}

#[test]
fn status_codes_are_told_apart() {
    assert_eq!(status_failure(0), None);
    assert_eq!(status_failure(1), Some(Failure::InvalidConfigTime));
    assert_eq!(status_failure(2), Some(Failure::InvalidTime));
    assert_eq!(status_failure(3), Some(Failure::Failed));
    assert_eq!(status_failure(4), None);
}

#[test]
fn each_reply_is_read_on_its_own() {
    assert_eq!(
        batch_failures(&vec![0, 3, 0, 1, 2, 9]),
        vec![(1, Failure::Failed), (3, Failure::InvalidConfigTime), (4, Failure::InvalidTime)]
    );
    assert_eq!(batch_failures(&Vec::new()), Vec::new());
}

#[test]
fn loop_runs_one_forced_pass_then_waits() {
    let (s, a) = next(State::Starting, Event::Subscribed);
    assert_eq!((s, a), (State::Synchronizing, Action::Synchronize { force_print: true }));
    let (s, a) = next(s, Event::PassDone);
    assert_eq!((s, a), (State::Idle, Action::Wait));
    let (s, a) = next(s, Event::Other);
    assert_eq!((s, a), (State::Idle, Action::Wait));
    let (s, a) = next(s, Event::ScreenChange);
    assert_eq!((s, a), (State::Synchronizing, Action::Synchronize { force_print: false }));
    let (s, a) = next(s, Event::ScreenChange);
    assert_eq!((s, a), (State::Synchronizing, Action::Wait));
}

#[test]
fn announcement_on_change_or_on_demand() {
    assert!(announces(true, false));
    assert!(announces(false, true));
    assert!(announces(true, true));
    assert!(!announces(false, false));
}

fn carry_out(screen: &mut Screen, setup: &mut Vec<Configured>, commit: &Commit) {
    for step in &commit.steps {
        match step {
            Step::Resize(size) => screen.size = *size,
            Step::Batch(requests) => {
                for r in requests {
                    let state = &mut screen.crtc_infos.iter_mut().find(|p| p.0 == r.crtc).expect("known").1;
                    state.x = r.x;
                    state.y = r.y;
                    state.mode = r.mode;
                    state.outputs = r.output.into_iter().collect();
                    for item in setup.iter_mut() {
                        if Some(item.output) == r.output {
                            item.info.crtc = r.crtc;
                        } else if item.info.crtc == r.crtc {
                            item.info.crtc = 0;
                        }
                    }
                }
            }
        }
    }
}

#[test]
fn a_second_pass_sends_nothing() {
    let mut setup = vec![
        configured(70, conf("a", 1920, 1080, 0, 0), 0, vec![40, 41], vec![100]),
        configured(71, conf("b", 1280, 1024, 1920, 0), 42, vec![41, 42], vec![101]),
    ];
    let mut screen = screen(
        vec![
            (40, crtc_info(0, 0, 0, vec![])),
            (41, crtc_info(5, 5, 101, vec![73])),
            (42, crtc_info(0, 0, 101, vec![71])),
        ],
        Mode { w: 4000, h: 1000 },
    );
    let target = Mode { w: 3200, h: 1080 };
    let first = apply_config(&screen, &target, &setup).expect("a plan");
    assert!(first.changed);
    assert_eq!(
        first.steps,
        vec![
            Step::Batch(vec![request(41, 5, 5, 0, None)]),
            Step::Resize(Mode { w: 4000, h: 1080 }),
            Step::Batch(vec![request(40, 0, 0, 100, Some(70)), request(42, 1920, 0, 101, Some(71))]),
            Step::Resize(Mode { w: 3200, h: 1080 }),
        ]
    );
    carry_out(&mut screen, &mut setup, &first);
    let second = apply_config(&screen, &target, &setup).expect("a plan");
    assert!(!second.changed);
    assert_eq!(second.steps, Vec::<Step>::new());
}

#[test]
fn controllers_to_read_are_the_listed_and_the_bound() {
    let setup = vec![
        configured(70, conf("a", 1, 1, 0, 0), 0, vec![40], vec![100]),
        configured(71, conf("b", 1, 1, 0, 0), 45, vec![40], vec![100]),
        configured(72, conf("c", 1, 1, 0, 0), 41, vec![40], vec![100]),
        configured(73, conf("d", 1, 1, 0, 0), 45, vec![40], vec![100]),
    ];
    assert_eq!(crtcs_to_read(&vec![40, 41, 40], &setup), vec![40, 41, 45]);
    assert_eq!(crtcs_to_read(&vec![], &Vec::new()), Vec::<u32>::new());
}
