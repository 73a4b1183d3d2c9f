use nanoleaf_aws_terminator::controller::{
    api_url, display_request, events_request, panels_url, NanoleafCommand,
};
use nanoleaf_aws_terminator::display::Display;
use nanoleaf_aws_terminator::dynamodb::{
    monitor_dynamodb, DynamoDbAction, DynamoDbSignal, DynamoDbState, TableDescription, TableStatus,
};
use nanoleaf_aws_terminator::ec2::{
    all_identified, listed_instances, monitor_ec2, Ec2Action, Ec2Signal, Ec2State, Instance,
    Reservation,
};
use nanoleaf_aws_terminator::frame::draw;
use nanoleaf_aws_terminator::resource::AWSResource;
use nanoleaf_aws_terminator::s3::{monitor_s3, Bucket, S3Action, S3Signal, S3State};
use nanoleaf_aws_terminator::show::{manage_display, ShowAction, ShowSignal, ShowState};
use nanoleaf_aws_terminator::tasklog::{
    available_message, found_message, level, resource_label, service_name, task_line,
    terminated_message, touched_message, Level,
};
use nanoleaf_aws_terminator::touch::{
    get_resource_from_panel, process_events, EventData, TouchAction, TouchEvent, TouchSignal,
    TouchState,
};

/// The frame of a board.
fn draw_board(panel_count: u16, display: &Display, available: &Vec<u16>) -> String {
    draw(panel_count, &display.iter(), available)
}

fn reservation(ids: &[&str]) -> Reservation {
    Reservation {
        instances: Some(
            ids.iter()
                .map(|id| Instance { instance_id: Some(id.to_string()) })
                .collect(),
        ),
    }
}

fn touches(panels: &[u16]) -> EventData {
    EventData {
        events: panels.iter().map(|panel_id| TouchEvent { panel_id: *panel_id }).collect(),
    }
}

fn bucket(name: &str) -> Bucket {
    Bucket { name: Some(name.to_string()) }
}

fn with_status(status: TableStatus) -> Option<TableDescription> {
    Some(TableDescription { table_status: Some(status) })
}

#[test]
fn resource_of_a_lit_panel() {
    let mut display = Display::new();
    display.insert(3, &AWSResource::Table("t".to_string()));
    assert_eq!(get_resource_from_panel(&display, 3), AWSResource::Table("t".to_string()));
}

#[test]
fn touch_terminates_and_frees() {
    let mut display = Display::new();
    display.insert(3, &AWSResource::Instance("i-3".to_string()));
    display.insert(4, &AWSResource::Bucket("b-4".to_string()));
    display.insert(5, &AWSResource::Table("t-5".to_string()));
    let mut available = vec![1];

    let (state, action) =
        process_events(TouchState::Streaming, TouchSignal::Message, &mut display, &mut available);
    assert!(matches!(state, TouchState::Admitting));
    assert!(matches!(action, TouchAction::AcquirePermit));

    let signal = TouchSignal::Admitted(touches(&[4, 3]));
    let (state, action) = process_events(state, signal, &mut display, &mut available);
    assert!(matches!(state, TouchState::Ready { next: 0, .. }));
    assert!(matches!(action, TouchAction::Proceed));

    let (state, action) =
        process_events(state, TouchSignal::Proceed, &mut display, &mut available);
    match action {
        TouchAction::Terminate(resource) => {
            assert_eq!(resource, AWSResource::Bucket("b-4".to_string()))
        }
        other => panic!("{:?}", other),
    }
    assert!(display.get_by_left(4).is_some());

    let (state, action) =
        process_events(state, TouchSignal::Terminated, &mut display, &mut available);
    assert!(matches!(action, TouchAction::Pause(1)));
    assert!(display.get_by_left(4).is_some());

    let (state, action) = process_events(state, TouchSignal::Rested, &mut display, &mut available);
    assert!(matches!(state, TouchState::Ready { next: 1, .. }));
    assert!(matches!(action, TouchAction::Proceed));
    assert_eq!(display.get_by_left(4), None);
    assert_eq!(available, vec![1, 4]);

    let (state, action) =
        process_events(state, TouchSignal::Proceed, &mut display, &mut available);
    match action {
        TouchAction::Terminate(resource) => {
            assert_eq!(resource, AWSResource::Instance("i-3".to_string()))
        }
        other => panic!("{:?}", other),
    }
    let (state, _) = process_events(state, TouchSignal::Terminated, &mut display, &mut available);
    let (state, _) = process_events(state, TouchSignal::Rested, &mut display, &mut available);
    let (state, action) =
        process_events(state, TouchSignal::Proceed, &mut display, &mut available);
    assert!(matches!(state, TouchState::Streaming));
    assert!(matches!(action, TouchAction::AwaitMessage));
    assert_eq!(available, vec![1, 4, 3]);
    assert_eq!(display.iter(), vec![(5, AWSResource::Table("t-5".to_string()))]);
}

#[test]
fn message_without_touches() {
    let mut display = Display::new();
    let mut available = vec![];
    let signal = TouchSignal::Admitted(touches(&[]));
    let (state, _) = process_events(TouchState::Admitting, signal, &mut display, &mut available);
    let (state, action) =
        process_events(state, TouchSignal::Proceed, &mut display, &mut available);
    assert!(matches!(state, TouchState::Streaming));
    assert!(matches!(action, TouchAction::AwaitMessage));
}

#[test]
fn instances_of_a_listing() {
    let listing = Some(vec![
        reservation(&["i-1", "i-2"]),
        Reservation { instances: None },
        reservation(&[]),
        reservation(&["i-3"]),
    ]);
    assert!(all_identified(&listing));
    assert_eq!(
        listed_instances(&listing),
        vec![
            AWSResource::Instance("i-1".to_string()),
            AWSResource::Instance("i-2".to_string()),
            AWSResource::Instance("i-3".to_string()),
        ]
    );
    assert!(listed_instances(&None).is_empty());
    assert!(listed_instances(&Some(vec![])).is_empty());
}

#[test]
fn instance_without_id() {
    let nameless = Reservation { instances: Some(vec![Instance { instance_id: None }]) };
    assert!(!all_identified(&Some(vec![reservation(&["i-1"]), nameless])));
    assert!(all_identified(&None));
}

#[test]
fn ec2_pass() {
    let mut display = Display::new();
    display.insert(9, &AWSResource::Instance("i-1".to_string()));
    let mut available = vec![5];
    let (state, action) =
        monitor_ec2(Ec2State::Idle, Ec2Signal::Tick, &mut display, &mut available);
    assert_eq!(state, Ec2State::Admitting);
    assert!(matches!(action, Ec2Action::AcquirePermit));
    let (state, action) = monitor_ec2(state, Ec2Signal::Permit, &mut display, &mut available);
    assert_eq!(state, Ec2State::Describing);
    match action {
        Ec2Action::DescribeInstances(filter) => {
            assert_eq!(filter.name, "instance-state-name");
            assert_eq!(filter.value, "running");
        }
        other => panic!("{:?}", other),
    }
    let signal = Ec2Signal::Instances(Some(vec![reservation(&["i-1", "i-2"])]));
    let (state, action) = monitor_ec2(state, signal, &mut display, &mut available);
    assert_eq!(state, Ec2State::Idle);
    match action {
        Ec2Action::Rest(found) => {
            assert_eq!(found, vec![(5, AWSResource::Instance("i-2".to_string()))])
        }
        other => panic!("{:?}", other),
    }
    assert!(available.is_empty());
    assert_eq!(display.get_by_left(5), Some(AWSResource::Instance("i-2".to_string())));
    assert_eq!(display.get_by_left(9), Some(AWSResource::Instance("i-1".to_string())));
}

#[test]
fn ec2_empty_listings() {
    for listing in [None, Some(vec![])] {
        let mut display = Display::new();
        let mut available = vec![5];
        let signal = Ec2Signal::Instances(listing);
        let (state, action) =
            monitor_ec2(Ec2State::Describing, signal, &mut display, &mut available);
        assert_eq!(state, Ec2State::Idle);
        assert!(matches!(action, Ec2Action::Rest(found) if found.is_empty()));
        assert_eq!(available, vec![5]);
        assert!(display.iter().is_empty());
    }
}

#[test]
fn s3_pass() {
    let region = "eu-west-3".to_string();
    let mut display = Display::new();
    let mut available = vec![5];
    let (state, action) =
        monitor_s3(S3State::Idle, S3Signal::Tick, &region, &mut display, &mut available);
    assert!(matches!(action, S3Action::AcquirePermit));
    let (state, action) =
        monitor_s3(state, S3Signal::Permit, &region, &mut display, &mut available);
    assert!(matches!(action, S3Action::ListBuckets));
    let signal = S3Signal::Buckets(Some(vec![bucket("far"), bucket("near"), bucket("near")]));
    let (mut state, action) = monitor_s3(state, signal, &region, &mut display, &mut available);
    assert!(matches!(action, S3Action::Proceed(None)));

    let answers = [("far", "us-west-2", None), ("near", "eu-west-3", Some(5)), ("near", "eu-west-3", None)];
    for (name, location, lit) in answers {
        let (asked, action) =
            monitor_s3(state, S3Signal::Proceed, &region, &mut display, &mut available);
        assert!(matches!(action, S3Action::GetBucketLocation(ref n) if n == name));
        let signal = S3Signal::Location(Some(location.to_string()));
        let (next, action) = monitor_s3(asked, signal, &region, &mut display, &mut available);
        assert!(matches!(action, S3Action::Proceed(panel) if panel == lit));
        state = next;
    }
    let (state, action) =
        monitor_s3(state, S3Signal::Proceed, &region, &mut display, &mut available);
    assert!(matches!(state, S3State::Idle));
    assert!(matches!(action, S3Action::Rest));
    assert!(available.is_empty());
    assert_eq!(display.iter(), vec![(5, AWSResource::Bucket("near".to_string()))]);
}

#[test]
fn s3_empty_listings() {
    let region = "eu-west-3".to_string();
    for listing in [None, Some(vec![])] {
        let mut display = Display::new();
        let mut available = vec![];
        let signal = S3Signal::Buckets(listing);
        let (state, action) =
            monitor_s3(S3State::Listing, signal, &region, &mut display, &mut available);
        assert!(matches!(state, S3State::Idle));
        assert!(matches!(action, S3Action::Rest));
    }
}

#[test]
fn dynamodb_pass() {
    let mut display = Display::new();
    let mut available = vec![6];
    let (state, action) =
        monitor_dynamodb(DynamoDbState::Idle, DynamoDbSignal::Tick, &mut display, &mut available);
    assert!(matches!(action, DynamoDbAction::AcquirePermit));
    let (state, action) =
        monitor_dynamodb(state, DynamoDbSignal::Permit, &mut display, &mut available);
    assert!(matches!(action, DynamoDbAction::ListTables));
    let names = vec!["leaving".to_string(), "users".to_string(), "users".to_string()];
    let signal = DynamoDbSignal::Tables(Some(names));
    let (mut state, action) = monitor_dynamodb(state, signal, &mut display, &mut available);
    assert!(matches!(action, DynamoDbAction::Proceed(None)));

    let answers = [
        ("leaving", TableStatus::Deleting, None),
        ("users", TableStatus::Active, Some(6)),
        ("users", TableStatus::Active, None),
    ];
    for (name, status, lit) in answers {
        let (asked, action) =
            monitor_dynamodb(state, DynamoDbSignal::Proceed, &mut display, &mut available);
        assert!(matches!(action, DynamoDbAction::DescribeTable(ref n) if n == name));
        let signal = DynamoDbSignal::Description(with_status(status));
        let (next, action) = monitor_dynamodb(asked, signal, &mut display, &mut available);
        assert!(matches!(action, DynamoDbAction::Proceed(panel) if panel == lit));
        state = next;
    }
    let (state, action) =
        monitor_dynamodb(state, DynamoDbSignal::Proceed, &mut display, &mut available);
    assert!(matches!(state, DynamoDbState::Idle));
    assert!(matches!(action, DynamoDbAction::Rest));
    assert_eq!(display.iter(), vec![(6, AWSResource::Table("users".to_string()))]);
}

#[test]
fn dynamodb_only_active_tables() {
    let statuses = [
        TableStatus::Archived,
        TableStatus::Archiving,
        TableStatus::Creating,
        TableStatus::Deleting,
        TableStatus::InaccessibleEncryptionCredentials,
        TableStatus::Updating,
        TableStatus::Unknown("ACTIVE".to_string()),
    ];
    for status in statuses {
        let mut display = Display::new();
        let mut available = vec![6];
        let state = DynamoDbState::Describing { tables: vec!["t".to_string()], next: 0 };
        let signal = DynamoDbSignal::Description(with_status(status));
        let (_, action) = monitor_dynamodb(state, signal, &mut display, &mut available);
        assert!(matches!(action, DynamoDbAction::Proceed(None)));
        assert_eq!(available, vec![6]);
        assert!(display.iter().is_empty());
    }
}

#[test]
fn dynamodb_empty_listings() {
    for listing in [None, Some(vec![])] {
        let mut display = Display::new();
        let mut available = vec![];
        let signal = DynamoDbSignal::Tables(listing);
        let (state, action) =
            monitor_dynamodb(DynamoDbState::Listing, signal, &mut display, &mut available);
        assert!(matches!(state, DynamoDbState::Idle));
        assert!(matches!(action, DynamoDbAction::Rest));
    }
}

#[test]
fn addresses() {
    let api = api_url("192.168.1.20", "s3cret");
    assert_eq!(api, "http://192.168.1.20:16021/api/v1/s3cret");
    assert_eq!(panels_url(&api), "http://192.168.1.20:16021/api/v1/s3cret/");
    let events = events_request(&api);
    assert_eq!(events.url, "http://192.168.1.20:16021/api/v1/s3cret/events");
    assert_eq!(events.key, "id");
    assert_eq!(events.value, "4");
}

#[test]
fn command_shows_the_frame() {
    let request = display_request("http://x", "1 5 1 0 0 0 0 20");
    assert_eq!(request.url, "http://x/effects");
    match request.command {
        NanoleafCommand::Custom { command, anim_type, anim_data, looping, palette } => {
            assert_eq!(command, "display");
            assert_eq!(anim_type, "static");
            assert_eq!(anim_data, "1 5 1 0 0 0 0 20");
            assert!(!looping);
            assert!(palette.is_empty());
        }
    }
}

#[test]
fn levels_by_name() {
    assert_eq!(level("info"), Some(Level::Info));
    assert_eq!(level("warn"), Some(Level::Warn));
    assert_eq!(level("error"), Some(Level::Error));
    assert_eq!(level("debug"), None);
    assert_eq!(level("Info"), None);
    assert_eq!(level(""), None);
}

#[test]
fn line_of_a_task() {
    assert_eq!(
        task_line("[", "task", "monitor_s3", "]", "Found new S3 Bucket logs"),
        "[task monitor_s3] Found new S3 Bucket logs"
    );
}

#[test]
fn touched_panel_goes_dark() {
    let mut display = Display::new();
    display.insert(3, &AWSResource::Instance("i-3".to_string()));
    let mut available = vec![];
    assert_eq!(draw_board(1, &display, &available), "1 3 1 247 142 4 0 20");
    let state = TouchState::Pausing { events: touches(&[3]).events, next: 0 };
    process_events(state, TouchSignal::Rested, &mut display, &mut available);
    assert_eq!(draw_board(1, &display, &available), "1 3 1 0 0 0 0 20");
}

#[test]
fn found_instance_lights_up() {
    let mut display = Display::new();
    let mut available = vec![8];
    let signal = Ec2Signal::Instances(Some(vec![reservation(&["i-1"])]));
    monitor_ec2(Ec2State::Describing, signal, &mut display, &mut available);
    assert_eq!(draw_board(1, &display, &available), "1 8 1 247 142 4 0 20");
}

#[test]
fn messages_of_the_tasks() {
    let instance = AWSResource::Instance("i-1".to_string());
    let table = AWSResource::Table("users".to_string());
    let bucket = AWSResource::Bucket("logs".to_string());
    assert_eq!(service_name(&instance), "EC2 Instance");
    assert_eq!(service_name(&table), "DynamoDB Table");
    assert_eq!(service_name(&bucket), "S3 Bucket");
    let label = resource_label(service_name(&instance), "i-1");
    assert_eq!(label, "EC2 Instance i-1");
    assert_eq!(found_message(&label), "Found new EC2 Instance i-1");
    assert_eq!(terminated_message(&label), "Terminated EC2 Instance i-1");
    assert_eq!(touched_message("42"), "Received touch event for panel 42");
    assert_eq!(available_message("42"), "Panel 42 is now available");
}

#[test]
fn ec2_pass_without_enough_panels() {
    let mut display = Display::new();
    let mut available = vec![5];
    let signal = Ec2Signal::Instances(Some(vec![reservation(&["i-1", "i-2", "i-3"])]));
    let (state, action) = monitor_ec2(Ec2State::Describing, signal, &mut display, &mut available);
    assert_eq!(state, Ec2State::Idle);
    match action {
        Ec2Action::OutOfPanels(found, missed) => {
            assert_eq!(found, vec![(5, AWSResource::Instance("i-1".to_string()))]);
            assert_eq!(missed, AWSResource::Instance("i-2".to_string()));
        }
        other => panic!("{:?}", other),
    }
}

#[test]
fn ec2_pass_where_a_panel_is_held_twice() {
    let mut display = Display::new();
    let mut available = vec![1, 1];
    let signal = Ec2Signal::Instances(Some(vec![reservation(&["x", "x", "x"])]));
    let (_, action) = monitor_ec2(Ec2State::Describing, signal, &mut display, &mut available);
    match action {
        Ec2Action::Rest(found) => {
            assert_eq!(found, vec![(1, AWSResource::Instance("x".to_string()))])
        }
        other => panic!("{:?}", other),
    }
}

#[test]
fn every_tick_sends_one_frame() {
    let mut display = Display::new();
    display.insert(7, &AWSResource::Table("t".to_string()));
    let available = vec![8];
    let mut state = ShowState::Idle;
    // the same board twice over
    for _ in 0..2 {
        let (listed, action) =
            manage_display(state, ShowSignal::Tick, "http://x", 2, &display, &available);
        assert!(matches!(action, ShowAction::Proceed));
        let (sending, action) =
            manage_display(listed, ShowSignal::Proceed, "http://x", 2, &display, &available);
        assert!(matches!(sending, ShowState::Sending));
        match action {
            ShowAction::Send(request) => {
                assert_eq!(request.url, "http://x/effects");
                let NanoleafCommand::Custom { anim_data, .. } = request.command;
                assert_eq!(anim_data, "2 7 1 77 114 243 0 20 8 1 0 0 0 0 20");
            }
            other => panic!("{:?}", other),
        }
        let (idle, action) =
            manage_display(sending, ShowSignal::Sent, "http://x", 2, &display, &available);
        assert!(matches!(idle, ShowState::Idle));
        assert!(matches!(action, ShowAction::Rest));
        state = idle;
    }
    assert_eq!(available, vec![8]);
    assert_eq!(display.iter(), vec![(7, AWSResource::Table("t".to_string()))]);
}

#[test]
fn free_panels_are_read_after_the_lit_ones() {
    let mut display = Display::new();
    display.insert(7, &AWSResource::Table("t".to_string()));
    let (listed, _) =
        manage_display(ShowState::Idle, ShowSignal::Tick, "u", 2, &display, &vec![8]);
    // meanwhile the panel that was free is lit
    display.insert(8, &AWSResource::Table("s".to_string()));
    let (_, action) = manage_display(listed, ShowSignal::Proceed, "u", 2, &display, &vec![]);
    match action {
        ShowAction::Send(request) => {
            let NanoleafCommand::Custom { anim_data, .. } = request.command;
            assert_eq!(anim_data, "2 7 1 77 114 243 0 20");
        }
        other => panic!("{:?}", other),
    }
}

#[test]
fn s3_pass_without_enough_panels() {
    let region = "eu-west-3".to_string();
    let mut display = Display::new();
    let mut available = vec![];
    let buckets = vec![bucket("far"), bucket("near")];
    let state = S3State::Locating { buckets, next: 0 };
    let signal = S3Signal::Location(Some("us-west-2".to_string()));
    let (state, action) = monitor_s3(state, signal, &region, &mut display, &mut available);
    assert!(matches!(action, S3Action::Proceed(None)));
    let (state, _) = monitor_s3(state, S3Signal::Proceed, &region, &mut display, &mut available);
    let signal = S3Signal::Location(Some("eu-west-3".to_string()));
    let (state, action) = monitor_s3(state, signal, &region, &mut display, &mut available);
    assert!(matches!(state, S3State::Idle));
    match action {
        S3Action::OutOfPanels(missed) => {
            assert_eq!(missed, AWSResource::Bucket("near".to_string()))
        }
        other => panic!("{:?}", other),
    }
    assert!(display.iter().is_empty());
}

#[test]
fn dynamodb_pass_without_enough_panels() {
    let mut display = Display::new();
    let mut available = vec![];
    let tables = vec!["old".to_string(), "new".to_string()];
    let state = DynamoDbState::Describing { tables, next: 0 };
    let signal = DynamoDbSignal::Description(with_status(TableStatus::Deleting));
    let (state, action) = monitor_dynamodb(state, signal, &mut display, &mut available);
    assert!(matches!(action, DynamoDbAction::Proceed(None)));
    let (state, _) =
        monitor_dynamodb(state, DynamoDbSignal::Proceed, &mut display, &mut available);
    let signal = DynamoDbSignal::Description(with_status(TableStatus::Active));
    let (state, action) = monitor_dynamodb(state, signal, &mut display, &mut available);
    assert!(matches!(state, DynamoDbState::Idle));
    match action {
        DynamoDbAction::OutOfPanels(missed) => {
            assert_eq!(missed, AWSResource::Table("new".to_string()))
        }
        other => panic!("{:?}", other),
    }
    assert!(display.iter().is_empty());
}

/// A pass of the instance task, which lists `a` and `b`.
fn pass_ec2(display: &mut Display, available: &mut Vec<u16>) {
    let signal = Ec2Signal::Instances(Some(vec![reservation(&["a", "b"])]));
    let (_, action) = monitor_ec2(Ec2State::Describing, signal, display, available);
    assert!(matches!(action, Ec2Action::Rest(_)));
}

/// A pass of the bucket task, which lists `near`, `far` and `near`. Gives the requests.
fn pass_s3(display: &mut Display, available: &mut Vec<u16>) -> Vec<String> {
    let region = "eu-west-3".to_string();
    let mut asked = vec![];
    let listing = vec![bucket("near"), bucket("far"), bucket("near")];
    let (mut state, mut action) = monitor_s3(
        S3State::Listing,
        S3Signal::Buckets(Some(listing)),
        &region,
        display,
        available,
    );
    loop {
        let signal = match action {
            S3Action::Proceed(_) => S3Signal::Proceed,
            S3Action::GetBucketLocation(name) => {
                let location = if name == "near" { "eu-west-3" } else { "us-west-2" };
                asked.push(name);
                S3Signal::Location(Some(location.to_string()))
            }
            S3Action::Rest => return asked,
            other => panic!("{:?}", other),
        };
        let step = monitor_s3(state, signal, &region, display, available);
        state = step.0;
        action = step.1;
    }
}

/// A pass of the table task, which lists `new` and `old`. Gives the requests.
fn pass_dynamodb(display: &mut Display, available: &mut Vec<u16>) -> Vec<String> {
    let mut asked = vec![];
    let listing = vec!["new".to_string(), "old".to_string()];
    let (mut state, mut action) = monitor_dynamodb(
        DynamoDbState::Listing,
        DynamoDbSignal::Tables(Some(listing)),
        display,
        available,
    );
    loop {
        let signal = match action {
            DynamoDbAction::Proceed(_) => DynamoDbSignal::Proceed,
            DynamoDbAction::DescribeTable(name) => {
                let status =
                    if name == "new" { TableStatus::Active } else { TableStatus::Deleting };
                asked.push(name);
                DynamoDbSignal::Description(with_status(status))
            }
            DynamoDbAction::Rest => return asked,
            other => panic!("{:?}", other),
        };
        let step = monitor_dynamodb(state, signal, display, available);
        state = step.0;
        action = step.1;
    }
}

#[test]
fn passes_ask_for_every_entry_in_order() {
    let mut display = Display::new();
    display.insert(9, &AWSResource::Bucket("near".to_string()));
    display.insert(8, &AWSResource::Table("new".to_string()));
    let mut available = vec![];
    assert_eq!(pass_s3(&mut display, &mut available), vec!["near", "far", "near"]);
    assert_eq!(pass_dynamodb(&mut display, &mut available), vec!["new", "old"]);
}

#[test]
fn passes_lead_to_the_same_in_any_order() {
    let orders = [[0, 1, 2], [0, 2, 1], [1, 0, 2], [1, 2, 0], [2, 0, 1], [2, 1, 0]];
    for order in orders {
        let mut display = Display::new();
        display.insert(9, &AWSResource::Instance("a".to_string()));
        // just enough panels for `b`, `near` and `new`
        let mut available = vec![1, 2, 3];
        for task in order {
            match task {
                0 => pass_ec2(&mut display, &mut available),
                1 => assert_eq!(pass_s3(&mut display, &mut available).len(), 3),
                _ => assert_eq!(pass_dynamodb(&mut display, &mut available).len(), 2),
            }
        }
        assert!(available.is_empty());
        assert_eq!(display.iter().len(), 4);
        for shown in [
            AWSResource::Instance("a".to_string()),
            AWSResource::Instance("b".to_string()),
            AWSResource::Bucket("near".to_string()),
            AWSResource::Table("new".to_string()),
        ] {
            assert!(display.contains_right(&shown));
        }
    }
}

/// Whether the touch task holds the permit.
fn touch_holds(state: &TouchState) -> bool {
    !matches!(state, TouchState::Streaming | TouchState::Admitting)
}

#[test]
fn touch_and_instance_tasks_share_the_permit() {
    let mut display = Display::new();
    display.insert(3, &AWSResource::Instance("i-3".to_string()));
    let mut available = vec![4];
    let (mut display, mut available) = (&mut display, &mut available);

    // the instance task gets the permit first, the touch task waits
    let (ec2, _) = monitor_ec2(Ec2State::Idle, Ec2Signal::Tick, &mut display, &mut available);
    let (touch, action) =
        process_events(TouchState::Streaming, TouchSignal::Message, &mut display, &mut available);
    assert!(matches!(action, TouchAction::AcquirePermit));
    let (ec2, _) = monitor_ec2(ec2, Ec2Signal::Permit, &mut display, &mut available);
    assert!(ec2 == Ec2State::Describing && !touch_holds(&touch));
    let signal = Ec2Signal::Instances(Some(vec![reservation(&["i-3", "i-4"])]));
    let (ec2, action) = monitor_ec2(ec2, signal, &mut display, &mut available);
    assert!(ec2 == Ec2State::Idle && matches!(action, Ec2Action::Rest(_)));

    // now the touch task has it, and the instance task can only ask for it
    let signal = TouchSignal::Admitted(touches(&[3]));
    let (touch, _) = process_events(touch, signal, &mut display, &mut available);
    let (touch, action) =
        process_events(touch, TouchSignal::Proceed, &mut display, &mut available);
    assert!(touch_holds(&touch));
    match action {
        TouchAction::Terminate(resource) => {
            assert_eq!(resource, AWSResource::Instance("i-3".to_string()))
        }
        other => panic!("{:?}", other),
    }
    let before = display.iter().len();
    let (ec2, action) = monitor_ec2(ec2, Ec2Signal::Tick, &mut display, &mut available);
    assert!(ec2 == Ec2State::Admitting && matches!(action, Ec2Action::AcquirePermit));
    assert_eq!(display.iter().len(), before);

    // the panel is freed before the permit comes back
    let (touch, _) = process_events(touch, TouchSignal::Terminated, &mut display, &mut available);
    let (touch, _) = process_events(touch, TouchSignal::Rested, &mut display, &mut available);
    assert_eq!(display.get_by_left(3), None);
    assert!(touch_holds(&touch));
    let (touch, action) =
        process_events(touch, TouchSignal::Proceed, &mut display, &mut available);
    assert!(!touch_holds(&touch) && matches!(action, TouchAction::AwaitMessage));
}
