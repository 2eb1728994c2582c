//! The launcher's control protocol and state transitions.

use taigachat_core::config::Config;
use taigachat_core::control::{
    endpoint_of, route_request, DownloadDecision, Endpoint, Launcher, RouteKind,
    open_url_response, select_download_params,
};
use taigachat_core::download::DownloadSession;
use taigachat_core::keybinds::Keybinds;
use taigachat_core::queue::Fifo;
use taigachat_core::sse::sse_event;
use taigachat_core::supervisor::{
    bridge_password, monitor_step, plan_launch, ClientMonitorCommand, MonitorDecision,
};
use taigachat_core::trusted::{form_urlencoded_pairs, generate_secret_code, parse_url};

fn fresh_launcher() -> Launcher {
    let config = Config::from_pairs(&vec![]).unwrap();
    Launcher::launch(b"SECRETSECRETSECRETSECRET".to_vec(), config, Vec::new())
}

#[test]
fn route_accepts_only_the_secret() {
    let secret = b"SECRETSECRETSECRETSECRET";
    let r = route_request(b"/launcher0/SECRETSECRETSECRETSECRET/getVersions0", secret);
    assert!(matches!(r.kind, RouteKind::Accepted));
    assert_eq!(r.words.len(), 1);
    assert_eq!(r.words[0].as_slice(), b"getVersions0");

    let r = route_request(b"/launcher0/WRONG/getVersions0", secret);
    assert!(matches!(r.kind, RouteKind::BadCode));

    let r = route_request(b"/other0/SECRETSECRETSECRETSECRET/getVersions0", secret);
    assert!(matches!(r.kind, RouteKind::NotFound));

    let r = route_request(b"/launcher0/SECRETSECRETSECRETSECRET", secret);
    assert!(matches!(r.kind, RouteKind::NoEndpoint));
}

#[test]
fn route_hands_arguments_on() {
    let secret = b"s";
    let r = route_request(b"/launcher0/s/setInterestingKeys0/10/11", secret);
    assert!(matches!(r.kind, RouteKind::Accepted));
    let words: Vec<&[u8]> = r.words.iter().map(|w| w.as_slice()).collect();
    assert_eq!(words, vec![b"setInterestingKeys0" as &[u8], b"10", b"11"]);
}

#[test]
fn endpoint_words_are_recognized() {
    assert!(matches!(endpoint_of(b"setAppSettings0"), Endpoint::SetAppSettings));
    assert!(matches!(endpoint_of(b"downloadUpdate0"), Endpoint::DownloadUpdate));
    assert!(matches!(endpoint_of(b"restartClient0"), Endpoint::RestartClient));
    assert!(matches!(endpoint_of(b"nonsense0"), Endpoint::Unknown));
}

#[test]
fn settings_round_trip_verbatim() {
    let mut l = fresh_launcher();
    let body = b"{\"theme\":\"dark\"}";
    let r = l.set_app_settings(body);
    assert_eq!(r.status, 200);
    assert_eq!(r.body.as_slice(), b"ok");
    let got = l.get_app_settings();
    assert_eq!(got.status, 200);
    assert_eq!(got.body.as_slice(), body as &[u8]);
}

#[test]
fn concurrent_settings_write_is_refused() {
    let mut l = fresh_launcher();
    let first = l.set_app_settings(b"first");
    assert_eq!(first.status, 200);
    l.is_changing_config = true;
    let r = l.set_app_settings(b"second");
    assert_eq!(r.status, 409);
    assert_eq!(r.body.as_slice(), b"already changing settings");
    l.is_changing_config = false;
    let got = l.get_app_settings();
    assert_eq!(got.body.as_slice(), b"first");
}

#[test]
fn keybind_bound_is_enforced() {
    let mut l = fresh_launcher();
    let args: Vec<Vec<u8>> = vec![b"1".to_vec(), b"2".to_vec(), b"3".to_vec()];
    let r = l.set_interesting_keys(&args);
    assert_eq!(r.status, 200);
    assert_eq!(l.keybinds.interested, vec![1, 2, 3]);

    let too_many: Vec<Vec<u8>> = (0..9).map(|i: u64| i.to_string().into_bytes()).collect();
    let r = l.set_interesting_keys(&too_many);
    assert_eq!(r.status, 400);
    assert_eq!(
        r.body.as_slice(),
        b"8 is the maximum number of key bindings allowed" as &[u8]
    );
    assert_eq!(l.keybinds.interested, vec![1, 2, 3]);
}

#[test]
fn unparsable_keys_become_zero() {
    let mut l = fresh_launcher();
    let args: Vec<Vec<u8>> = vec![b"7".to_vec(), b"junk".to_vec()];
    let r = l.set_interesting_keys(&args);
    assert_eq!(r.status, 200);
    assert_eq!(l.keybinds.interested, vec![7, 0]);
}

#[test]
fn no_second_download_may_start() {
    let mut l = fresh_launcher();
    assert!(matches!(l.begin_download(b"x.tar.gz"), DownloadDecision::Start));
    assert!(l.is_downloading);
    assert!(matches!(l.begin_download(b"y.tar.gz"), DownloadDecision::Busy));
    l.end_download();
    assert!(!l.is_downloading);
    assert!(matches!(l.begin_download(b"y.tar.gz"), DownloadDecision::Start));
}

#[test]
fn unsafe_download_names_are_refused() {
    let mut l = fresh_launcher();
    assert!(matches!(l.begin_download(b"../x.tar.gz"), DownloadDecision::BadFilename));
    assert!(matches!(l.begin_download(b"c:\\x.tar.gz"), DownloadDecision::BadFilename));
    assert!(!l.is_downloading);
}

#[test]
fn deleting_the_active_version_is_refused() {
    let mut l = fresh_launcher();
    l.config.newest_version = b"app-1.0.0.tar.gz".to_vec();
    let (delete, r) = l.delete_version(b"app-1.0.0.tar.gz");
    assert!(!delete);
    assert_eq!(r.status, 403);
    assert_eq!(r.body.as_slice(), b"can not delete latest version");
    let (delete, _) = l.delete_version(b"app-1.0.0");
    assert!(!delete);
    let (delete, r) = l.delete_version(b"app-0.9.0.tar.gz");
    assert!(delete);
    assert_eq!(r.status, 200);
    assert_eq!(r.body.as_slice(), b"app-0.9.0.tar.gz deleted");
}

#[test]
fn activation_plans_the_right_files() {
    let mut l = fresh_launcher();
    l.config.latest_launcher_builddate = b"20240102".to_vec();
    let (plan, resp) = l
        .set_newest_version(b"/root/data", b"app-1.0.0.tar.gz", false)
        .unwrap();
    assert_eq!(resp.status, 200);
    assert_eq!(l.config.newest_version.as_slice(), b"app-1.0.0.tar.gz");
    assert_eq!(
        plan.install_env.as_slice(),
        b"TAIGACHAT_LATEST_LAUNCHER_BUILDDATE=20240102\nTAIGACHAT_NEWEST_VERSION=app-1.0.0.tar.gz\n"
            as &[u8]
    );
    assert_eq!(
        plan.exe_path.as_slice(),
        b"/root/data/versions/app-1.0.0/app-1.0.0/app" as &[u8]
    );
    assert!(l.set_newest_version(b"/root/data", b"app.zip", false).is_err());
}

#[test]
fn is_active_notices_clicks() {
    let mut l = fresh_launcher();
    let r = l.is_active();
    assert_eq!(r.body.as_slice(), b"userIsInactive");
    l.keybinds.mouse_click();
    let r = l.is_active();
    assert_eq!(r.body.as_slice(), b"userIsActive");
    let r = l.is_active();
    assert_eq!(r.body.as_slice(), b"userIsInactive");
}

#[test]
fn open_url_answers() {
    let ok = open_url_response(true, true);
    assert_eq!(ok.status, 200);
    let bad = open_url_response(false, true);
    assert_eq!(bad.status, 400);
    assert_eq!(bad.body.as_slice(), b"failed to parse URL");
    let fail = open_url_response(true, false);
    assert_eq!(fail.status, 500);
    assert_eq!(fail.body.as_slice(), b"could not open URL");
}

#[test]
fn url_wrapper_validates() {
    assert!(parse_url(b"http://example.com/x").is_some());
    assert!(parse_url(b"not a url").is_none());
    let normalized = parse_url(b"HTTP://example.com").unwrap();
    assert_eq!(normalized.as_slice(), b"http://example.com/");
}

#[test]
fn download_query_is_decoded_and_selected() {
    let pairs = form_urlencoded_pairs(b"url=http%3A%2F%2Fhost%2Fx.tar.gz&filename=x.tar.gz");
    let (url, filename) = select_download_params(&pairs);
    assert_eq!(url.as_slice(), b"http://host/x.tar.gz");
    assert_eq!(filename.as_slice(), b"x.tar.gz");
    let none = form_urlencoded_pairs(b"");
    let (url, filename) = select_download_params(&none);
    assert_eq!(url.as_slice(), b"");
    assert_eq!(filename.as_slice(), b"");
}

#[test]
fn secret_codes_are_long_and_alphanumeric() {
    let a = generate_secret_code();
    assert_eq!(a.len(), 24);
    assert!(a.iter().all(|b| b.is_ascii_alphanumeric()));
}

#[test]
fn a_started_launcher_guards_itself_with_its_secret() {
    let config = Config::from_pairs(&vec![]).unwrap();
    let l = Launcher::start(config, Vec::new());
    assert_eq!(l.secret_code.len(), 24);
    let mut path = b"/launcher0/".to_vec();
    path.extend_from_slice(&l.secret_code);
    path.extend_from_slice(b"/getVersions0");
    let r = route_request(&path, &l.secret_code);
    assert!(matches!(r.kind, RouteKind::Accepted));
    let r = route_request(b"/launcher0/000000000000000000000000/getVersions0", &l.secret_code);
    assert!(matches!(r.kind, RouteKind::BadCode));
}

#[test]
fn open_url_requests_validate_before_opening() {
    let normalized = match taigachat_core::control::open_url_request(b"http://example.com") {
        Ok(u) => u,
        Err(_) => panic!("a valid URL was refused"),
    };
    assert_eq!(normalized.as_slice(), b"http://example.com/");
    let refused = match taigachat_core::control::open_url_request(b"no scheme") {
        Ok(_) => panic!("an invalid URL was accepted"),
        Err(r) => r,
    };
    assert_eq!(refused.status, 400);
    assert_eq!(refused.body.as_slice(), b"failed to parse URL");
}

#[test]
fn download_queries_parse_in_one_step() {
    let (url, filename) =
        taigachat_core::control::parse_download_query(b"url=http%3A%2F%2Fh%2Fa&filename=a.tar.gz");
    assert_eq!(url.as_slice(), b"http://h/a");
    assert_eq!(filename.as_slice(), b"a.tar.gz");
}

#[test]
fn download_session_reports_the_hash_of_what_it_saw() {
    let mut s = DownloadSession::start();
    let ev = s.feed_chunk(b"hel");
    assert_eq!(ev.as_slice(), b"event: updateProgress0\r\ndata: 3\r\n\r\n" as &[u8]);
    let ev = s.feed_chunk(b"lo");
    assert_eq!(ev.as_slice(), b"event: updateProgress0\r\ndata: 5\r\n\r\n" as &[u8]);
    let unpack = DownloadSession::unpacking_event();
    assert_eq!(unpack.as_slice(), b"event: updateUnpacking0\r\ndata: \r\n\r\n" as &[u8]);
    let done = s.finish();
    assert_eq!(
        done.as_slice(),
        b"event: updateDone0\r\ndata: m3HSJL1i83hdltRq0+o9czGb+8KJDKra4t/3JRlnPKcjI8PZm6XBHXx6zG4UuMXaDEZjR1wuXDre9G9zvN7AQw\r\n\r\n"
            as &[u8]
    );
}

#[test]
fn empty_download_still_hashes() {
    let s = DownloadSession::start();
    let done = s.finish();
    assert_eq!(
        done.as_slice(),
        b"event: updateDone0\r\ndata: z4PhNX7vuL3xVChQ1m2AB9Yg5AULVxXcg/SpIdNs6c5H0NE8XYXysP+DGNKHfuwvY7kxvUdBeoGlODJ6+SfaPg\r\n\r\n"
            as &[u8]
    );
}

#[test]
fn canned_route_answers() {
    let r = taigachat_core::control::bad_code_response();
    assert_eq!(r.status, 401);
    assert_eq!(r.body.as_slice(), b"bad code");
    let r = taigachat_core::control::not_found_response();
    assert_eq!(r.status, 404);
    assert_eq!(r.body.as_slice(), b"endpoints start with launcher0");
    let r = taigachat_core::control::no_endpoint_response();
    assert_eq!(r.status, 404);
    assert_eq!(r.body.as_slice(), b"no endpoint provided");
    let r = taigachat_core::control::unknown_endpoint_response(b"fribble0");
    assert_eq!(r.status, 404);
    assert_eq!(r.body.as_slice(), b"fribble0 is an invalid endpoint");
    let r = taigachat_core::control::download_busy_response();
    assert_eq!(r.status, 409);
    assert_eq!(r.body.as_slice(), b"update is already being downloaded");
}

#[test]
fn sse_frames_are_exact() {
    let ev = sse_event(b"key0", b"30 1");
    assert_eq!(ev.as_slice(), b"event: key0\r\ndata: 30 1\r\n\r\n" as &[u8]);
}

#[test]
fn keybind_events_filter_and_one_shot() {
    let mut kb = Keybinds::default();
    kb.interested = vec![30, 31];
    assert!(kb.key_event(30));
    assert!(!kb.key_event(99));
    kb.accept_all = true;
    assert!(kb.key_event(99));
    assert!(!kb.accept_all);
    assert!(!kb.key_event(99));
}

#[test]
fn dispatch_queue_is_fifo() {
    let mut q: Fifo<u32> = Fifo::new();
    assert!(q.pop_front().is_none());
    q.push_back(1);
    q.push_back(2);
    q.push_back(3);
    assert_eq!(q.pop_front(), Some(1));
    q.push_back(4);
    assert_eq!(q.pop_front(), Some(2));
    assert_eq!(q.pop_front(), Some(3));
    assert_eq!(q.pop_front(), Some(4));
    assert!(q.pop_front().is_none());
}

#[test]
fn monitor_decisions() {
    assert!(matches!(
        monitor_step(Some(ClientMonitorCommand::Restart)),
        MonitorDecision::Respawn
    ));
    assert!(matches!(
        monitor_step(Some(ClientMonitorCommand::Shutdown)),
        MonitorDecision::Exit
    ));
    assert!(matches!(monitor_step(None), MonitorDecision::Exit));
}

#[test]
fn bridge_password_has_the_triple() {
    let p = bridge_password(8080, b"SECRET", b"1.2.3");
    assert_eq!(p.as_slice(), b"8080-SECRET-1.2.3");
}

#[test]
fn launch_plans() {
    let mut config = Config::from_pairs(&vec![]).unwrap();
    config.newest_version = b"app-1.0.0.tar.gz".to_vec();
    let plan = plan_launch(&config, b"/data", false).unwrap();
    assert_eq!(plan.program.as_slice(), b"/data/versions/app-1.0.0/app-1.0.0/app");
    assert!(plan.args.is_empty());
    assert_eq!(plan.web_server.as_slice(), b"");

    config.launch_build_tool = true;
    config.use_wayland = true;
    config.extra_flags = vec![b"--x".to_vec()];
    let plan = plan_launch(&config, b"/data", false).unwrap();
    assert_eq!(plan.program.as_slice(), b"pnpm");
    let args: Vec<&[u8]> = plan.args.iter().map(|a| a.as_slice()).collect();
    assert_eq!(
        args,
        vec![
            b"electron" as &[u8],
            b"--x",
            b"--enable-features=UseOzonePlatform",
            b"--ozone-platform=wayland",
            b"index.js",
        ]
    );
    assert_eq!(plan.web_server.as_slice(), b"http://localhost:8080");
}

#[test]
fn exactly_the_maximum_number_of_keys_is_accepted() {
    let mut l = fresh_launcher();
    let args: Vec<Vec<u8>> = (1..=8).map(|i: u64| i.to_string().into_bytes()).collect();
    let r = l.set_interesting_keys(&args);
    assert_eq!(r.status, 200);
    assert_eq!(l.keybinds.interested.len(), 8);
}

#[test]
fn queue_length_tracks_pushes() {
    let mut q: Fifo<u8> = Fifo::new();
    assert_eq!(q.len(), 0);
    q.push_back(9);
    assert_eq!(q.len(), 1);
    let _ = q.pop_front();
    assert_eq!(q.len(), 0);
}
