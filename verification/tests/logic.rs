use cadverse::ar_client::{choose_target, find_server_named, next_round_target};
use cadverse::clients::remove_dead_clients;
use cadverse::host::{request_relative_path, sim_info};
use cadverse::menu::UIMenu;
use cadverse::network::PeerInfo;
use cadverse::sim_control::{action_for_flag, continues_after, flag_after_model_load, SimAction, FLAG_HALT, FLAG_PAUSE, FLAG_RUN};
use cadverse::sim_input::{dedup_inputs, UserInKind};

fn addr(n: u8) -> iroh::EndpointAddr {
    iroh::EndpointAddr::new(iroh::SecretKey::from_bytes(&[n; 32]).public())
}

fn info(n: u8, name: &str, is_server: bool) -> PeerInfo {
    PeerInfo { addr: addr(n), name: name.to_string(), is_server }
}

#[test]
fn menu_numbers_select_entries() {
    assert!(UIMenu::from(0usize) == UIMenu::Exit);
    assert!(UIMenu::from(1usize) == UIMenu::StartSimulation);
    assert!(UIMenu::from(2usize) == UIMenu::StopSimulation);
    assert!(UIMenu::from(3usize) == UIMenu::EnterSimulation);
    assert!(UIMenu::from(4usize) == UIMenu::ShowGroupInfo);
    assert!(UIMenu::from(5usize) == UIMenu::WrongInput);
    assert!(UIMenu::from(usize::MAX) == UIMenu::WrongInput);
}

#[test]
fn menu_number_round_trip() {
    for n in 0..5usize {
        assert_eq!(UIMenu::from(n).number(), n);
    }
    assert_eq!(UIMenu::WrongInput.number(), 5);
}

#[test]
fn dedup_keeps_starts_last_touching_ends() {
    let kinds = [UserInKind::Touching, UserInKind::TouchStart, UserInKind::Touching, UserInKind::TouchEnd, UserInKind::TouchStart, UserInKind::Touching, UserInKind::TouchEnd];
    assert_eq!(dedup_inputs(&kinds), vec![1, 4, 5, 3, 6]);
}

#[test]
fn dedup_without_touching() {
    assert_eq!(dedup_inputs(&[UserInKind::TouchEnd, UserInKind::TouchStart]), vec![1, 0]);
    assert_eq!(dedup_inputs(&[]), Vec::<usize>::new());
    assert_eq!(dedup_inputs(&[UserInKind::Touching, UserInKind::Touching, UserInKind::Touching]), vec![2]);
}

#[test]
fn dedup_of_deduplicated_batch_is_unchanged() {
    let kinds = [UserInKind::Touching, UserInKind::TouchStart, UserInKind::Touching, UserInKind::TouchEnd, UserInKind::TouchStart, UserInKind::Touching, UserInKind::TouchEnd];
    let once: Vec<UserInKind> = dedup_inputs(&kinds).into_iter().map(|i| kinds[i]).collect();
    assert_eq!(dedup_inputs(&once), (0..once.len()).collect::<Vec<_>>());
}

#[test]
fn remove_dead_keeps_others_in_order() {
    let mut clients = vec!["a", "b", "c", "d", "e"];
    remove_dead_clients(&mut clients, &vec![0, 2, 4]);
    assert_eq!(clients, vec!["b", "d"]);
    let mut clients = vec![1, 2, 3];
    remove_dead_clients(&mut clients, &vec![]);
    assert_eq!(clients, vec![1, 2, 3]);
    remove_dead_clients(&mut clients, &vec![0, 1, 2]);
    assert!(clients.is_empty());
}

#[test]
fn flags_select_worker_action() {
    assert!(action_for_flag(FLAG_RUN) == SimAction::Step);
    assert!(action_for_flag(FLAG_PAUSE) == SimAction::AwaitReload);
    assert!(action_for_flag(FLAG_HALT) == SimAction::Halt);
    assert!(action_for_flag(200) == SimAction::Halt);
}

#[test]
fn model_load_pauses_worker() {
    assert_eq!(flag_after_model_load(FLAG_RUN, true), FLAG_PAUSE);
    assert_eq!(flag_after_model_load(FLAG_HALT, true), FLAG_PAUSE);
    assert_eq!(flag_after_model_load(FLAG_RUN, false), FLAG_RUN);
}

#[test]
fn worker_stops_on_failure_or_halt() {
    assert!(continues_after(SimAction::Step, true));
    assert!(!continues_after(SimAction::Step, false));
    assert!(continues_after(SimAction::AwaitReload, true));
    assert!(!continues_after(SimAction::AwaitReload, false));
    assert!(!continues_after(SimAction::Halt, true));
}

#[test]
fn sim_info_finds_first_named_server() {
    let peers = vec![info(1, "A", false), info(2, "B", true), info(3, "A", true)];
    assert_eq!(sim_info(&peers, "B"), Some(addr(2)));
    assert_eq!(sim_info(&peers, "A"), None);
    assert_eq!(sim_info(&peers, "C"), None);
}

#[test]
fn request_path_drops_leading_slashes() {
    assert_eq!(request_relative_path("/meshes/a.obj"), "meshes/a.obj");
    assert_eq!(request_relative_path("///x"), "x");
    assert_eq!(request_relative_path("x/"), "x/");
    assert_eq!(request_relative_path("/"), "");
    assert_eq!(request_relative_path(""), "");
    assert_eq!(request_relative_path("/한글"), "한글");
}

#[test]
fn client_keeps_or_switches_target() {
    assert_eq!(choose_target(&[true, true], 0), Some(0));
    assert_eq!(choose_target(&[false, true], 0), Some(1));
    assert_eq!(choose_target(&[true, false], 1), Some(0));
    assert_eq!(choose_target(&[false, false], 1), None);
    assert_eq!(next_round_target(0), 1);
    assert_eq!(next_round_target(1), 0);
}

#[test]
fn client_finds_server_by_name() {
    let peers = vec![info(1, "A", false), info(2, "B", true), info(3, "A", true)];
    assert_eq!(find_server_named(&peers, "A"), Some(2));
    assert_eq!(find_server_named(&peers, "B"), Some(1));
    assert_eq!(find_server_named(&peers, "C"), None);
}


#[test]
fn worker_flag_stays_in_its_three_values() {
    let valid = [FLAG_RUN, FLAG_PAUSE, FLAG_HALT];
    for f in valid {
        for loaded in [false, true] {
            assert!(valid.contains(&flag_after_model_load(f, loaded)));
        }
        let steps = action_for_flag(f) == SimAction::Step;
        assert_eq!(steps, f == FLAG_RUN);
        assert!(!continues_after(action_for_flag(f), false));
    }
    for f in 3u8..=255 {
        assert!(!continues_after(action_for_flag(f), true));
    }
}
