use asaborake::analyze::logo::model::LogoData;
use asaborake::analyze::logo::model::Rect;
use asaborake::cmcut::plan::CutPlan;
use asaborake::cmcut::plan::Decision;
use asaborake::cmcut::plan::KeepRange;
use asaborake::cmcut::score::LowConfidencePolicy;
use asaborake::cmcut::score::SegmentKind;
use asaborake::cmcut::solve::Segment;
use asaborake::engine::channels::ChannelSettings;
use asaborake::engine::channels::ChannelStore;
use asaborake::engine::naming::RecordedAt;
use asaborake::engine::profile::builtin;
use asaborake::engine::rules::Rule;
use asaborake::engine::rules::RuleSet;
use asaborake::server::api::base64;
use asaborake::server::api::check_rules;
use asaborake::server::api::check_scan;
use asaborake::server::api::check_settings;
use asaborake::server::api::check_submission;
use asaborake::server::api::default_frame_width;
use asaborake::server::api::default_limit;
use asaborake::server::api::preview_data_uri;
use asaborake::server::api::recut_of;
use asaborake::server::api::retry_of;
use asaborake::server::api::scan_name;
use asaborake::server::api::ApiError;
use asaborake::server::api::KeepSpan;
use asaborake::server::config::Config;
use asaborake::server::db::parse_time;
use asaborake::server::db::row_to_job;
use asaborake::server::db::Artifacts;
use asaborake::server::db::Entry;
use asaborake::server::db::Job;
use asaborake::server::db::JobStatus;
use asaborake::server::db::NewJob;
use asaborake::server::db::Row;
use asaborake::server::db::Store;
use asaborake::server::disk::describe;
use asaborake::server::disk::free_bytes;
use asaborake::server::disk::shortfall;
use asaborake::server::schedule::RunHours;
use asaborake::server::sources::is_recording;
use asaborake::server::sources::list_order;
use asaborake::server::sources::resolve;
use asaborake::server::sources::Found;
use asaborake::server::sources::Recording;
use asaborake::server::worker::choose_profile;
use asaborake::server::worker::explain;
use asaborake::server::worker::fields_for;
use asaborake::server::worker::next_step;
use asaborake::server::worker::no_room_for;
use asaborake::server::worker::pool_size;
use asaborake::server::worker::conclude;
use asaborake::server::worker::record;
use asaborake::server::worker::rename_note;
use asaborake::server::worker::renamed_output;
use asaborake::server::worker::request_for;
use asaborake::server::worker::settings_for;
use asaborake::server::worker::Ending;
use asaborake::server::worker::Step;

fn text(value: &str) -> Option<String> {
    Some(value.to_owned())
}

// The schedule.

#[test]
fn no_hours_means_no_restriction() {
    let schedule = RunHours::default();
    assert!(schedule.is_unrestricted());
    for hour in 0..24 {
        assert!(schedule.allows_hour(hour), "hour {hour} was refused");
    }
    assert_eq!(schedule.describe(), "any time");
    assert!(schedule.allows_now());
}

#[test]
fn only_the_listed_hours_are_allowed() {
    let schedule = RunHours::new(&[1, 2, 3, 4, 5]);
    assert!(!schedule.allows_hour(0));
    assert!(schedule.allows_hour(3));
    assert!(!schedule.allows_hour(6));
    assert!(!schedule.allows_hour(23));
}

#[test]
fn a_schedule_reads_back_as_the_spans_somebody_meant() {
    assert_eq!(RunHours::new(&[1, 2, 3, 4, 5, 6]).describe(), "01:00-07:00");
    assert_eq!(RunHours::new(&[0, 1, 2, 22, 23]).describe(), "00:00-03:00, 22:00-24:00");
    assert_eq!(RunHours::new(&[13]).describe(), "13:00-14:00");
}

#[test]
fn a_schedule_is_tidied_rather_than_taken_literally() {
    let schedule = RunHours::new(&[5, 1, 5, 99, 3]);
    assert_eq!(schedule.hours(), [1, 3, 5]);
    assert!(!schedule.allows_hour(99));
}

#[test]
fn an_overnight_span_wrapping_midnight_is_two_runs() {
    let schedule = RunHours::new(&[22, 23, 0, 1, 2, 3]);
    assert!(schedule.allows_hour(23));
    assert!(schedule.allows_hour(0));
    assert!(!schedule.allows_hour(4));
    assert_eq!(schedule.describe(), "00:00-04:00, 22:00-24:00");
}

#[test]
fn some_hour_of_every_day_is_allowed_now() {
    let every: Vec<u32> = (0..24).collect();
    assert!(RunHours::new(&every).allows_now());
}

// The disk.

#[test]
fn sizes_read_as_sizes() {
    assert_eq!(describe(3 * 1024 * 1024 * 1024), "3.0 GiB");
    assert_eq!(describe(512 * 1024 * 1024), "512 MiB");
    assert_eq!(describe(5 * 512 * 1024), "2 MiB");
    assert_eq!(describe(5 * 256 * 1024 * 1024), "1.2 GiB");
}

#[test]
fn reads_the_free_space_df_reports() {
    let output = "Filesystem     1024-blocks      Used Available Capacity Mounted on\n\
                  /dev/sda1        102400000  40000000  62400000      40% /recordings\n";
    assert_eq!(free_bytes(output), Some(62_400_000 * 1024));
    assert_eq!(free_bytes("Filesystem 1024-blocks\n"), None);
    assert_eq!(free_bytes(""), None);
    assert_eq!(free_bytes("header\n/dev/sda1 1 2 lots 4% /\n"), None);
    assert_eq!(free_bytes("header\n/dev/sda1 1 2 18446744073709551615 4% /\n"), None);
}

#[test]
fn a_disk_with_room_reports_no_shortfall() {
    assert_eq!(shortfall(Some(100 << 30), 5), None);
    assert_eq!(shortfall(Some(2 << 30), 4), Some(1));
    assert_eq!(shortfall(Some(0), 4 << 30), Some(3 << 30));
}

#[test]
fn an_unreadable_location_does_not_block_a_job() {
    assert_eq!(shortfall(None, u64::MAX), None);
}

// The recordings.

#[test]
fn lists_only_recordings_and_ignores_everything_else() {
    let names = ["a.ts", "b.mp4", "notes.txt", "c.mkv", "subdir"];
    let offered: Vec<&str> = names.into_iter().filter(|name| is_recording(name)).collect();
    assert_eq!(offered, ["a.ts", "b.mp4", "c.mkv"]);
    assert!(is_recording("/r/SHOW.M2TS"));
}

fn roots() -> Vec<String> {
    vec!["/srv/other".to_owned(), "/srv/recordings".to_owned()]
}

#[test]
fn a_path_inside_a_recording_directory_resolves() {
    assert!(resolve(&roots(), "/srv/recordings/show.ts", true));
    assert!(resolve(&["/".to_owned()], "/show.ts", true));
}

#[test]
fn a_path_outside_the_recording_directories_is_refused() {
    assert!(!resolve(&roots(), "/srv/elsewhere/secret.ts", true));
    assert!(!resolve(&roots(), "/srv/recordings2/secret.ts", true));
    assert!(!resolve(&roots(), "/srv/recordings/subdir.ts", false));
}

#[test]
fn a_file_that_is_not_a_recording_is_refused() {
    assert!(!resolve(&roots(), "/srv/recordings/passwords.txt", true));
}

#[test]
fn nothing_resolves_when_no_directories_are_configured() {
    assert!(!resolve(&[], "/srv/recordings/show.ts", true));
    assert!(list_order(&[]).is_empty());
}

#[test]
fn recordings_are_listed_newest_first() {
    let found = |name: &str, modified| Found {
        modified,
        recording: Recording { path: format!("/r/{name}"), name: name.to_owned(), size: 1 },
    };
    let all = [
        found("b.ts", Some(10)),
        found("z.ts", None),
        found("a.ts", Some(10)),
        found("c.ts", Some(20)),
        found("y.ts", None),
    ];
    let names: Vec<&str> =
        list_order(&all).into_iter().map(|i| all[i].recording.name.as_str()).collect();
    assert_eq!(names, ["c.ts", "a.ts", "b.ts", "y.ts", "z.ts"]);
}

// The API.

#[test]
fn base64_matches_the_standard_encoding() {
    assert_eq!(base64(b""), "");
    assert_eq!(base64(b"f"), "Zg==");
    assert_eq!(base64(b"fo"), "Zm8=");
    assert_eq!(base64(b"foo"), "Zm9v");
    assert_eq!(base64(b"foob"), "Zm9vYg==");
    assert_eq!(base64(b"fooba"), "Zm9vYmE=");
    assert_eq!(base64(b"foobar"), "Zm9vYmFy");
}

#[test]
fn base64_handles_bytes_above_the_ascii_range() {
    assert_eq!(base64(&[0xFF, 0xFE, 0xFD]), "//79");
    assert_eq!(base64(&[0x00, 0x00, 0x00]), "AAAA");
}

#[test]
fn the_default_listing_limit_is_reasonable() {
    assert_eq!(default_limit(), 100);
    assert_eq!(default_frame_width(), 960);
}

#[test]
fn a_missing_thing_is_not_found() {
    let error = ApiError::not_found("job");
    assert_eq!(error.status, 404);
    assert_eq!(error.message, "job not found");
}

#[test]
fn a_logo_is_shown_as_a_png() {
    let rect = Rect { x: 0, y: 0, width: 3, height: 2 };
    let logo = LogoData {
        name: "test".to_owned(),
        channel_id: None,
        source_width: 12,
        source_height: 8,
        rect,
        a: vec![2.0f32.to_bits(); 6],
        b: vec![(-1.0f32).to_bits(); 6],
        frames_used: 200,
    };
    let png = logo.to_png().expect("renders");
    assert_eq!(png[..8], [0x89, b'P', b'N', b'G', b'\r', b'\n', 0x1a, b'\n']);
    // The width and the height, in the header that comes first.
    assert_eq!(png[16..24], [0, 0, 0, 3, 0, 0, 0, 2]);
    let uri = preview_data_uri(&logo).expect("renders");
    // The eight bytes every PNG begins with, then the length of its header.
    assert!(uri.starts_with("data:image/png;base64,iVBORw0KGgoAAAAN"), "{uri}");
}

fn submission() -> NewJob {
    NewJob {
        input: "a.ts".to_owned(),
        output: "a.ts.mp4".to_owned(),
        profile: "x264-cpu".to_owned(),
        title: text("Test"),
        channel_id: text("1024"),
        channel_name: text("ABC"),
        priority: 0,
    }
}

#[test]
fn a_submission_needs_paths_and_a_profile_that_exists() {
    let profiles = builtin();
    assert!(check_submission(&submission(), &profiles).is_ok());
    let blank = NewJob { input: "  \t".to_owned(), ..submission() };
    let error = check_submission(&blank, &profiles).expect_err("no input");
    assert_eq!((error.status, error.message.as_str()), (400, "input and output are both required"));
    let odd = NewJob { profile: "nope".to_owned(), ..submission() };
    let error = check_submission(&odd, &profiles).expect_err("no profile");
    assert_eq!((error.status, error.message.as_str()), (400, "no profile named 'nope'"));
}

#[test]
fn rules_and_channels_may_only_name_profiles_that_exist() {
    let profiles = builtin();
    let good = Rule { profile: text("x265-cpu"), ..Rule::default() };
    let bad = Rule { profile: text("typo"), ..Rule::default() };
    assert!(check_rules(&[good.clone(), Rule::default()], &profiles).is_ok());
    let error = check_rules(&[good, bad], &profiles).expect_err("a typo");
    assert_eq!(error.message, "no profile named 'typo'");
    let settings = ChannelSettings { profile: text("typo"), ..ChannelSettings::default() };
    assert!(check_settings(&settings, &profiles).is_err());
    assert!(check_settings(&ChannelSettings::default(), &profiles).is_ok());
}

#[test]
fn a_box_is_only_scanned_where_there_is_something_to_scan() {
    let rect = Rect { x: 1, y: 1, width: 8, height: 8 };
    assert!(check_scan(true, true, &rect).is_ok());
    assert_eq!(check_scan(false, true, &rect).expect_err("no store").status, 400);
    assert_eq!(check_scan(true, false, &rect).expect_err("outside").status, 403);
    let empty = Rect { width: 0, ..rect };
    assert_eq!(
        check_scan(true, true, &empty).expect_err("no area").message,
        "the rectangle has no area"
    );
    assert_eq!(scan_name(&None, &None), "unnamed");
    assert_eq!(scan_name(&None, &text("1024")), "1024");
    assert_eq!(scan_name(&text("NHK"), &text("1024")), "NHK");
}

fn job(id: &str) -> Job {
    Job {
        id: id.to_owned(),
        input: "/r/News.ts".to_owned(),
        output: "/out/News.mp4".to_owned(),
        profile: "nvenc-h264".to_owned(),
        title: text("News"),
        channel_id: text("1024"),
        channel_name: None,
        status: JobStatus::Completed,
        priority: 5,
        progress: 1_000_000,
        message: String::new(),
        error: None,
        created_at: 0,
        started_at: None,
        finished_at: None,
    }
}

#[test]
fn a_retry_is_the_same_job_again() {
    let again = retry_of(&job("x"));
    assert_eq!(again.input, "/r/News.ts");
    assert_eq!(again.output, "/out/News.mp4");
    assert_eq!(again.profile, "nvenc-h264");
    assert_eq!(again.priority, 5);
}

#[test]
fn a_recut_goes_beside_the_original_and_ahead_of_the_queue() {
    let span = |start, end| KeepSpan { start: Some(start), end: Some(end) };
    let recut = recut_of(&job("x"), &[span(0, 10), span(20, 30)]).expect("cuts");
    assert_eq!(recut.request.output, "/out/News.recut.mp4");
    assert_eq!(recut.request.priority, 15);
    assert_eq!(
        recut.ranges,
        vec![KeepRange { start: 0, end: 10 }, KeepRange { start: 20, end: 30 }]
    );
    let error = recut_of(&job("x"), &[]).expect_err("nothing");
    assert_eq!(error.message, "nothing was kept, so there would be nothing to encode");
    for bad in [span(10, 10), span(20, 10), KeepSpan { start: None, end: Some(3) }] {
        let error = recut_of(&job("x"), &[span(0, 10), bad]).expect_err("backwards");
        assert_eq!(error.message, "every kept stretch must end after it starts");
    }
}

// The queue.

fn store() -> Store {
    Store::new()
}

fn queue(store: &mut Store, input: &str, priority: i64, now: i64) -> String {
    let request = NewJob {
        input: input.to_owned(),
        output: format!("{input}.mp4"),
        priority,
        ..submission()
    };
    store.submit(request, now).expect("an id of its own")
}

fn input_at(store: &Store, place: usize) -> String {
    store.entry(place).job.input.clone()
}

#[test]
fn a_submitted_job_can_be_read_back() {
    let mut store = store();
    let id = queue(&mut store, "a.ts", 0, 1);
    assert_eq!(id.len(), 36);
    let found = store.get(&id).expect("exists");
    assert_eq!(found.status, JobStatus::Queued);
    assert_eq!(found.input, "a.ts");
    assert_eq!(found.channel_id.as_deref(), Some("1024"));
    assert!(store.get("nothing").is_none());
}

#[test]
fn claiming_takes_the_highest_priority_job_first() {
    let mut store = store();
    queue(&mut store, "low.ts", 0, 1);
    queue(&mut store, "urgent.ts", 10, 2);
    queue(&mut store, "later.ts", 10, 3);
    let claimed = store.claim_next(4).expect("a job");
    assert_eq!(input_at(&store, claimed), "urgent.ts");
    assert_eq!(store.entry(claimed).job.status, JobStatus::Running);
    assert_eq!(store.entry(claimed).job.started_at, Some(4));
    let second = store.claim_next(5).expect("a job");
    assert_eq!(input_at(&store, second), "later.ts");
    let third = store.claim_next(6).expect("a job");
    assert_eq!(input_at(&store, third), "low.ts");
}

#[test]
fn a_job_is_only_claimed_once() {
    let mut store = store();
    queue(&mut store, "only.ts", 0, 1);
    assert!(store.claim_next(2).is_some());
    assert!(store.claim_next(3).is_none(), "a second worker must not claim the same job");
}

#[test]
fn an_interrupted_job_returns_to_the_queue() {
    let mut store = store();
    let id = queue(&mut store, "interrupted.ts", 0, 1);
    assert!(store.claim_next(2).is_some());
    assert_eq!(store.requeue_interrupted(), 1);
    let found = store.get(&id).expect("exists");
    assert_eq!(found.status, JobStatus::Queued);
    assert_eq!(found.started_at, None);
    assert_eq!(found.message, "requeued after restart");
    assert!(store.claim_next(3).is_some());
}

#[test]
fn cancelling_only_affects_a_job_that_has_not_finished() {
    let mut store = store();
    let id = queue(&mut store, "c.ts", 0, 1);
    assert!(store.cancel(&id, 2));
    assert!(store.is_cancelled(&id));
    assert!(!store.cancel(&id, 3));
    assert_eq!(store.get(&id).expect("exists").finished_at, Some(2));
    assert!(store.claim_next(4).is_none());
}

#[test]
fn finishing_records_the_outcome_and_completes_the_bar() {
    let mut store = store();
    let id = queue(&mut store, "f.ts", 0, 1);
    store.claim_next(2);
    store.set_progress(&id, 500_000, "encoding".to_owned());
    store.set_diagnostics(&id, r#"{"warnings":["reception was poor"]}"#.to_owned());
    store.finish(&id, JobStatus::Completed, None, text("{}"), text("{}"), 3);
    let found = store.get(&id).expect("exists");
    assert_eq!(found.status, JobStatus::Completed);
    assert_eq!(found.progress, 1_000_000);
    assert!(found.finished_at.is_some());
    let artifacts = store.artifacts(&id).expect("exists");
    assert_eq!(artifacts.analysis.as_deref(), Some("{}"));
    assert!(
        artifacts.diagnostics.as_deref().is_some_and(|d| d.contains("reception was poor")),
        "{:?}",
        artifacts.diagnostics
    );
}

#[test]
fn a_failure_keeps_its_progress_and_records_why() {
    let mut store = store();
    let id = queue(&mut store, "bad.ts", 0, 1);
    store.claim_next(2);
    store.set_progress(&id, 300_000, "encoding".to_owned());
    store.finish(&id, JobStatus::Failed, text("ffmpeg exited 1"), None, None, 3);
    let found = store.get(&id).expect("exists");
    assert_eq!(found.status, JobStatus::Failed);
    assert_eq!(found.progress, 300_000, "progress must be kept");
    assert_eq!(found.error.as_deref(), Some("ffmpeg exited 1"));
}

#[test]
fn a_failed_job_keeps_what_its_source_was() {
    let mut store = store();
    let id = queue(&mut store, "broken.ts", 0, 1);
    store.claim_next(2);
    store.set_diagnostics(&id, r#"{"scrambled_packets":900000}"#.to_owned());
    store.finish(&id, JobStatus::Failed, text("analysis error"), None, None, 3);
    let artifacts = store.artifacts(&id).expect("exists");
    assert_eq!(artifacts.diagnostics.as_deref(), Some(r#"{"scrambled_packets":900000}"#));
}

#[test]
fn events_can_be_tailed_from_a_cursor() {
    let mut store = store();
    let id = queue(&mut store, "log.ts", 0, 1);
    for line in ["one", "two", "three"] {
        assert!(store.log(id.clone(), "info".to_owned(), line.to_owned(), 2).is_some());
    }
    assert_eq!(
        store.log("other".to_owned(), "info".to_owned(), "elsewhere".to_owned(), 2),
        Some(4)
    );
    let all = store.events(&id, 0);
    assert_eq!(all.len(), 3);
    let tail = store.events(&id, all[0].id);
    assert_eq!(tail.len(), 2);
    assert_eq!(tail[0].message, "two");
}

#[test]
fn a_row_with_nothing_in_a_column_reads_as_absent() {
    let row = Row {
        id: text("x"),
        input: text("bare.ts"),
        output: text("bare.ts.mp4"),
        profile: text("x264-cpu"),
        title: None,
        channel_id: text(""),
        channel_name: None,
        status: text("queued"),
        priority: Some(3),
        progress: None,
        message: None,
        error: text(""),
        created_at: text("2026-08-13T20:05:00+09:00"),
        started_at: text("yesterday"),
        finished_at: None,
    };
    let found = row_to_job(row, 7);
    assert_eq!(found.title, None, "an absent title must not become empty");
    assert_eq!(found.channel_id, None);
    assert_eq!(found.error, None);
    assert_eq!(found.status, JobStatus::Queued);
    assert_eq!((found.priority, found.progress), (3, 0));
    assert_eq!(found.message, "");
    // 11:05 in Greenwich.
    assert_eq!(found.created_at, 1_786_619_100_000_000);
    assert_eq!(found.started_at, None);
}

#[test]
fn a_text_queued_empty_is_fetched_as_absent() {
    let mut store = store();
    let request = NewJob {
        title: text(""),
        channel_id: text(""),
        channel_name: text(""),
        ..submission()
    };
    let id = store.submit(request, 1).expect("an id of its own");
    let found = store.get(&id).expect("exists");
    assert_eq!(found.title, None, "an empty title must not be presented");
    assert_eq!(found.channel_id, None, "an empty id must not key the logo store");
    assert_eq!(found.channel_name, None);
    let place = store.claim_next(2).expect("one waits");
    assert_eq!(store.entry(place).job.channel_id, None);
    assert_eq!(store.entry(store.list(10)[0]).job.title, None);
    store.finish(&id, JobStatus::Failed, text(""), None, None, 3);
    assert_eq!(store.get(&id).expect("exists").error, None);
    store.finish(&id, JobStatus::Failed, text("lost"), None, None, 4);
    assert_eq!(store.get(&id).expect("exists").error.as_deref(), Some("lost"));
}

#[test]
fn an_omitted_field_reads_back_as_absent_not_empty() {
    let mut store = store();
    let bare = NewJob {
        input: "bare.ts".to_owned(),
        title: None,
        channel_id: None,
        channel_name: None,
        ..submission()
    };
    let id = store.submit(bare, 1).expect("an id of its own");
    let found = store.get(&id).expect("exists");
    assert_eq!(found.title, None, "an absent title must not become empty");
    assert_eq!(found.channel_id, None);
    assert_eq!(found.error, None);
}

#[test]
fn times_are_read_as_rfc_3339() {
    assert_eq!(parse_time(Some("1970-01-01T00:00:01.5Z")), Some(1_500_000));
    assert_eq!(parse_time(Some("not a time")), None);
    assert_eq!(parse_time(None), None);
}

#[test]
fn an_unknown_status_is_treated_as_failed_rather_than_queued() {
    assert_eq!(JobStatus::parse("something-new"), JobStatus::Failed);
    assert!(JobStatus::parse("something-new").is_finished());
    for status in [
        JobStatus::Queued,
        JobStatus::Running,
        JobStatus::Blocked,
        JobStatus::Completed,
        JobStatus::Failed,
        JobStatus::Cancelled,
    ] {
        assert_eq!(JobStatus::parse(status.as_str()), status);
    }
    assert!(!JobStatus::Blocked.is_finished());
}

#[test]
fn a_claim_that_could_not_be_kept_is_taken_back() {
    let mut store = store();
    let id = queue(&mut store, "a.ts", 0, 1);
    queue(&mut store, "b.ts", 0, 2);
    let before = store.get(&id).expect("exists").clone();
    let place = store.claim_next(3).expect("one waits");
    assert_eq!(store.get(&id).expect("exists").started_at, Some(3));
    store.release(place);
    assert_eq!(*store.get(&id).expect("exists"), before);
    assert_eq!(store.claim_next(4), Some(place), "it is still the next");
}

#[test]
fn jobs_are_listed_most_recent_first() {
    let mut store = store();
    for (input, now) in [("a.ts", 10), ("b.ts", 30), ("c.ts", 20)] {
        queue(&mut store, input, 0, now);
    }
    let listed: Vec<String> =
        store.list(100).into_iter().map(|place| input_at(&store, place)).collect();
    assert_eq!(listed, ["b.ts", "c.ts", "a.ts"]);
    assert_eq!(store.list(0).len(), 1);
    assert_eq!(store.len(), 3);
}

#[test]
fn hand_chosen_cuts_are_kept_with_their_job() {
    let mut store = store();
    let ranges = vec![KeepRange { start: 0, end: 10 }];
    let id = store.submit_with_ranges(submission(), ranges.clone(), 1).expect("an id");
    assert_eq!(store.entry(0).ranges, Some(ranges));
    store.set_output(&id, "/elsewhere.mp4".to_owned());
    assert_eq!(store.get(&id).expect("exists").output, "/elsewhere.mp4");
    assert!(!store.enqueue(id.clone(), submission(), None, 2), "the id is taken");
    let stored = Entry { job: job("old"), ranges: None, artifacts: Artifacts::default() };
    assert!(store.restore(stored));
    assert!(store.get("old").is_some());
}

// The worker.

#[test]
fn an_error_is_reported_with_what_caused_it() {
    let messages = vec!["analysis error".to_owned(), "ffmpeg exited with status 1".to_owned()];
    assert_eq!(explain(&messages), "analysis error: ffmpeg exited with status 1");
}

#[test]
fn a_cause_that_only_restates_its_parent_is_not_repeated() {
    let messages = vec!["no such file".to_owned(), "no such file".to_owned()];
    assert_eq!(explain(&messages), "no such file");
}

#[test]
fn outside_its_hours_a_worker_rests_and_says_so_once() {
    assert_eq!(next_step(true, true), Step::Claim);
    assert_eq!(next_step(false, false), Step::Rest { announce: true });
    assert_eq!(next_step(false, true), Step::Rest { announce: false });
    assert_eq!(pool_size(0), 1);
    assert_eq!(pool_size(4), 4);
}

#[test]
fn a_rule_has_the_last_word_over_its_channel() {
    let mut channels = ChannelStore::new();
    channels.set(
        "1024".to_owned(),
        ChannelSettings {
            name: None,
            detect_commercials: false,
            profile: text("x264-cpu"),
        },
    );
    let rules = RuleSet::new(vec![Rule {
        name: None,
        title_contains: text("news"),
        profile: text("nvenc-hevc"),
        ..Rule::default()
    }]);
    let treatment = settings_for(&channels, &rules, &job("x"));
    assert_eq!(treatment.settings.profile.as_deref(), Some("nvenc-hevc"));
    assert!(!treatment.settings.detect_commercials, "the rule says nothing of it");
    assert_eq!(treatment.note.as_deref(), Some("matched the rule '(unnamed)'"));
    let plain = settings_for(&channels, &RuleSet::new(Vec::new()), &job("x"));
    assert_eq!(plain.settings.profile.as_deref(), Some("x264-cpu"));
    assert_eq!(plain.note, None);
}

#[test]
fn a_profile_is_chosen_and_said_to_be() {
    let profiles = builtin();
    let same = choose_profile(&profiles, &ChannelSettings::default(), &job("x")).expect("there");
    assert_eq!(same.profile.name, "nvenc-h264");
    assert_eq!(same.note, None);
    let settings = ChannelSettings { profile: text("x265-cpu"), ..ChannelSettings::default() };
    let other = choose_profile(&profiles, &settings, &job("x")).expect("there");
    assert_eq!(other.profile.name, "x265-cpu");
    assert_eq!(
        other.note.as_deref(),
        Some("using 'x265-cpu' for this channel instead of 'nvenc-h264'")
    );
    let missing = ChannelSettings { profile: text("gone"), ..ChannelSettings::default() };
    let error = choose_profile(&profiles, &missing, &job("x")).expect_err("not there");
    assert_eq!(error, "no profile named 'gone'");
}

#[test]
fn an_output_is_renamed_only_when_that_is_somewhere_else() {
    let at = RecordedAt { year: 2026, month: 8, day: 13, hour: 20, minute: 5 };
    let fields = fields_for(&job("x"), Some(at));
    assert_eq!(fields.channel.as_deref(), Some("1024"));
    assert_eq!(fields.source.as_deref(), Some("News"));
    assert_eq!(
        renamed_output(&job("x"), Some("{date} {title}"), &fields).as_deref(),
        Some("/out/2026-08-13 News.mp4")
    );
    assert_eq!(renamed_output(&job("x"), Some("{title}"), &fields), None);
    assert_eq!(renamed_output(&job("x"), None, &fields), None);
    assert_eq!(rename_note("/b", "/a"), "writing to /b rather than /a");
}

#[test]
fn a_job_that_does_not_fit_says_how_much_is_missing() {
    assert_eq!(no_room_for(None), None);
    assert_eq!(
        no_room_for(Some(3 << 30)).as_deref(),
        Some(
            "not enough room where the output goes — about 3.0 GiB short of what this recording \
             is likely to need"
        )
    );
}

#[test]
fn a_request_carries_what_the_job_and_its_channel_say() {
    let profile = builtin().remove("x264-cpu").expect("profile");
    let settings =
        ChannelSettings { detect_commercials: false, ..ChannelSettings::default() };
    let request = request_for(&job("x"), profile, &settings, LowConfidencePolicy::Block);
    assert_eq!(request.input, "/r/News.ts");
    assert_eq!(request.title.as_deref(), Some("News"));
    assert_eq!(request.cut.low_confidence, LowConfidencePolicy::Block);
    assert!(!request.learn_logo);
    assert!(!request.detect_commercials);
}

fn plan(decision: Decision) -> CutPlan {
    CutPlan {
        segments: vec![Segment {
            start: 60_000_000,
            end: 150_250_000,
            kind: SegmentKind::Commercial,
            confidence: 900_000,
        }],
        keep: Vec::new(),
        confidence: 875_000,
        decision,
        reason: String::new(),
    }
}

#[test]
fn every_ending_is_recorded_as_what_it_was() {
    let done = record(&Ending::Done(plan(Decision::Cut)));
    assert_eq!(done.status, JobStatus::Completed);
    assert_eq!(done.line, "done: removed 90.2s, confidence 0.88");
    assert_eq!(done.level, "info");
    let kept = record(&Ending::Done(plan(Decision::KeepAll)));
    assert_eq!(
        kept.line,
        "done: kept whole, 90.2s marked as commercial in the chapters, confidence 0.88"
    );
    let waiting = record(&Ending::NeedsLogo("no logo yet".to_owned()));
    assert_eq!((waiting.status, waiting.level.as_str()), (JobStatus::Blocked, "warn"));
    assert_eq!(waiting.error.as_deref(), Some("no logo yet"));
    let failed = record(&Ending::Failed(vec!["media error".to_owned(), "exit 1".to_owned()]));
    assert_eq!((failed.status, failed.level.as_str()), (JobStatus::Failed, "error"));
    assert_eq!(failed.error.as_deref(), Some("media error: exit 1"));
    let stopped = record(&Ending::Stopped("a panic".to_owned()));
    assert_eq!(stopped.status, JobStatus::Failed);
    assert_eq!(stopped.line, "worker stopped: a panic");
}

#[test]
fn what_is_removed_is_not_what_is_only_marked() {
    assert_eq!(plan(Decision::Cut).removed_seconds(), 90_250_000);
    assert_eq!(plan(Decision::KeepAll).removed_seconds(), 0);
    assert_eq!(plan(Decision::KeepAll).cut_seconds(), 90_250_000);
}

// Configuration.

#[test]
fn the_default_configuration_listens_on_loopback() {
    let config = Config::default();
    assert!(config.listen.starts_with("127.0.0.1"), "{}", config.listen);
    assert!(config.concurrency >= 1);
}

#[test]
fn a_cancelled_job_is_not_recorded_over() {
    let ending = Ending::Done(plan(Decision::Cut));
    assert!(conclude(true, &ending).is_none());
    assert!(conclude(true, &Ending::Failed(vec!["media error".to_owned()])).is_none());
    let done = conclude(false, &ending).expect("a record");
    assert_eq!(done.status, JobStatus::Completed);
    assert_eq!(done.line, "done: removed 90.2s, confidence 0.88");
}
