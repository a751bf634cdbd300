use randr_profiles::config::Mode;
use randr_profiles::crtc::{allocate_crtc, FreePool};
use randr_profiles::error::Error;
use randr_profiles::modes::{find_mode_id, mode_map};
use randr_profiles::server::{ModeInfo, OutputInfo};

fn output(crtc: u32, crtcs: Vec<u32>, modes: Vec<u32>) -> OutputInfo {
    OutputInfo { crtc, crtcs, modes, mm_width: 300, mm_height: 200 }
}

fn small_index() -> Vec<ModeInfo> {
    vec![
        ModeInfo { id: 10, width: 800, height: 600 },
        ModeInfo { id: 20, width: 1024, height: 768 },
        ModeInfo { id: 11, width: 800, height: 600 },
    ]
}

#[test]
fn mode_map_groups_by_size() {
    let index = mode_map(&small_index());
    assert_eq!(index.groups.len(), 2);
    assert_eq!(index.groups[0].mode, Mode { w: 800, h: 600 });
    assert_eq!(index.groups[0].ids, vec![10, 11]);
    assert_eq!(index.groups[1].mode, Mode { w: 1024, h: 768 });
    assert_eq!(index.groups[1].ids, vec![20]);
}

#[test]
fn mode_map_of_nothing_is_empty() {
    assert_eq!(mode_map(&Vec::new()).groups.len(), 0);
}

#[test]
fn resolves_to_the_supported_identifier() {
    let index = mode_map(&small_index());
    let info = output(0, vec![], vec![11, 12]);
    assert_eq!(find_mode_id(&info, &index, &Mode { w: 800, h: 600 }), Ok(11));
}

#[test]
fn resolves_to_the_first_the_output_lists() {
    let index = mode_map(&small_index());
    let info = output(0, vec![], vec![12, 11, 10]);
    assert_eq!(find_mode_id(&info, &index, &Mode { w: 800, h: 600 }), Ok(11));
}

#[test]
fn size_known_but_not_on_this_output() {
    let index = mode_map(&small_index());
    let info = output(0, vec![], vec![12, 13]);
    assert_eq!(
        find_mode_id(&info, &index, &Mode { w: 800, h: 600 }),
        Err(Error::ModeNotSupported(Mode { w: 800, h: 600 }))
    );
}

#[test]
fn size_unknown_to_the_server() {
    let index = mode_map(&small_index());
    let info = output(0, vec![], vec![10, 11, 20]);
    assert_eq!(
        find_mode_id(&info, &index, &Mode { w: 640, h: 480 }),
        Err(Error::ModeNotFound(Mode { w: 640, h: 480 }))
    );
    assert_eq!(
        find_mode_id(&info, &index, &Mode { w: 600, h: 800 }),
        Err(Error::ModeNotFound(Mode { w: 600, h: 800 }))
    );
}

#[test]
fn pool_holds_each_controller_once() {
    let pool = FreePool::new(&vec![5, 6, 5, 7, 6]);
    assert_eq!(pool.crtcs, vec![5, 6, 7]);
    assert!(pool.contains(6));
    assert!(!pool.contains(8));
}

#[test]
fn pool_remove_takes_the_controller_out() {
    let mut pool = FreePool::new(&vec![5, 6, 7]);
    assert!(pool.remove(6));
    assert_eq!(pool.crtcs, vec![5, 7]);
    assert!(!pool.remove(6));
    assert_eq!(pool.crtcs, vec![5, 7]);
}

#[test]
fn bound_controller_is_kept() {
    let mut pool = FreePool::new(&vec![5, 6, 7]);
    let got = allocate_crtc(&output(7, vec![5, 6, 7], vec![]), &mut pool);
    assert_eq!(got, Some(7));
    assert_eq!(pool.crtcs, vec![5, 6]);
}

#[test]
fn bound_controller_is_kept_even_if_not_free() {
    let mut pool = FreePool::new(&vec![5, 6]);
    let got = allocate_crtc(&output(9, vec![5, 6], vec![]), &mut pool);
    assert_eq!(got, Some(9));
    assert_eq!(pool.crtcs, vec![5, 6]);
}

#[test]
fn first_free_capable_controller_is_given() {
    let mut pool = FreePool::new(&vec![5, 6, 7]);
    let got = allocate_crtc(&output(0, vec![8, 7, 5], vec![]), &mut pool);
    assert_eq!(got, Some(7));
    assert_eq!(pool.crtcs, vec![5, 6]);
}

#[test]
fn a_given_controller_is_not_given_again() {
    let mut pool = FreePool::new(&vec![5, 6]);
    let first = allocate_crtc(&output(0, vec![5, 6], vec![]), &mut pool);
    let second = allocate_crtc(&output(0, vec![5, 6], vec![]), &mut pool);
    let third = allocate_crtc(&output(0, vec![5, 6], vec![]), &mut pool);
    assert_eq!(first, Some(5));
    assert_eq!(second, Some(6));
    assert_eq!(third, None);
    assert_eq!(pool.crtcs, Vec::<u32>::new());
}

#[test]
fn no_capable_controller_free_gives_none() {
    let mut pool = FreePool::new(&vec![5, 6]);
    let got = allocate_crtc(&output(0, vec![7, 8], vec![]), &mut pool);
    assert_eq!(got, None);
    assert_eq!(pool.crtcs, vec![5, 6]);
}
