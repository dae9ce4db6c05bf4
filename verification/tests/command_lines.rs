use web_server::args::{parse_client_args, parse_server_args, worker_flag_values, ArgError, ClientPlan};
use web_server::client::{format_command, validate_commands};
use web_server::shell::{process_menu, thread_menu, words_of_line, MenuChoice};

fn words(line: &str) -> Vec<String> {
    line.split(' ').map(|s| s.to_string()).collect()
}

#[test]
fn server_defaults_without_flags() {
    let a = parse_server_args(&words("prethread-WebServer")).unwrap();
    assert_eq!(a.root, "127.0.0.1");
    assert_eq!(a.port, "7878");
    assert_eq!(a.workers, 1);
    assert!(!a.invalid_flag);
    assert_eq!(a.bind_address(), "127.0.0.1:7878");
}

#[test]
fn server_reads_all_flags() {
    let a = parse_server_args(&words("prethread-WebServer -n 4 -w 0.0.0.0 -p 9000")).unwrap();
    assert_eq!(a.workers, 4);
    assert_eq!(a.root, "0.0.0.0");
    assert_eq!(a.port, "9000");
    assert!(!a.invalid_flag);
    assert_eq!(a.bind_address(), "0.0.0.0:9000");
}

#[test]
fn server_stops_at_unknown_flag() {
    let a = parse_server_args(&words("preforked-WebServer -p 8080 -x 3 -n 9")).unwrap();
    assert_eq!(a.port, "8080");
    assert_eq!(a.workers, 1);
    assert!(a.invalid_flag);
}

#[test]
fn server_errors() {
    assert_eq!(parse_server_args(&vec![]).unwrap_err(), ArgError::NoArguments);
    assert_eq!(
        parse_server_args(&words("prethread-WebServer -n")).unwrap_err(),
        ArgError::MissingValue
    );
    assert_eq!(
        parse_server_args(&words("prethread-WebServer -n four")).unwrap_err(),
        ArgError::InvalidNumber
    );
    assert_eq!(
        parse_server_args(&words("prethread-WebServer -x")).unwrap_err(),
        ArgError::MissingValue
    );
}

#[test]
fn client_plan_with_host_and_commands() {
    let plan = parse_client_args(&words("HTTPclient -h localhost:9000/ [-X PUT -d @test.txt]")).unwrap();
    match plan {
        ClientPlan::Send { host, commands, method } => {
            assert_eq!(host, "localhost:9000/");
            assert_eq!(commands, words("[-X PUT -d @test.txt]"));
            assert_eq!(method, "PUT");
        }
        other => panic!("unexpected plan {:?}", other),
    }
}

#[test]
fn client_plan_default_host_and_trailing_bracket() {
    let plan = parse_client_args(&words("HTTPclient [-X GET]")).unwrap();
    match plan {
        ClientPlan::Send { host, commands, method } => {
            assert_eq!(host, "localhost:7878/");
            assert_eq!(commands, words("[-X GET]"));
            assert_eq!(method, "GET");
        }
        other => panic!("unexpected plan {:?}", other),
    }
}

#[test]
fn client_plan_other_outcomes() {
    assert!(matches!(parse_client_args(&words("HTTPclient -q x")).unwrap(), ClientPlan::InvalidFlag));
    assert!(matches!(parse_client_args(&words("HTTPclient -h host")).unwrap(), ClientPlan::NoCommands));
    assert_eq!(parse_client_args(&words("HTTPclient [GET")).unwrap_err(), ArgError::MissingValue);
    assert_eq!(parse_client_args(&vec![]).unwrap_err(), ArgError::NoArguments);
}

#[test]
fn checking_command_pairs() {
    let r = validate_commands(&words("[GET data=\"title:hi\" BREW x"));
    assert_eq!(
        r.lines,
        vec![
            "GET METHOD: GET".to_string(),
            "GET DATA: data=\"title:hi\"".to_string(),
            "ERROR: Invalid HTTP method.".to_string(),
        ]
    );
    assert!(!r.unpaired);
    let r = validate_commands(&words("[DELETE a.txt PUT"));
    assert_eq!(r.lines, vec!["DELETE METHOD: DELETE".to_string(), "DELETE DATA: a.txt".to_string()]);
    assert!(r.unpaired);
    let r = validate_commands(&words("[POST body HEAD h"));
    assert_eq!(r.lines.len(), 4);
    assert_eq!(r.lines[0], "POST METHOD: POST");
    assert_eq!(r.lines[3], "HEAD DATA: h");
}

#[test]
fn curl_arguments_for_put() {
    let args = format_command(&words("[-X PUT -d @test.txt]"), "localhost:7878/", "PUT");
    assert_eq!(args, words("localhost:7878/test.txt -X PUT -d @test.txt"));
}

#[test]
fn curl_arguments_for_delete() {
    let args = format_command(&words("[-X DELETE test.txt]"), "localhost:7878/", "DELETE");
    assert_eq!(args, words("-X DELETE localhost:7878/test.txt test.txt"));
}

#[test]
fn curl_arguments_for_get_post_head() {
    let args = format_command(&words("[-X GET]"), "h/", "GET");
    assert_eq!(args, words("h/ -X GET"));
    let args = format_command(&words("[-X POST]"), "h/", "POST");
    assert_eq!(args, words("h/ -X POST"));
    let args = format_command(&words("[-X HEAD]"), "h/", "HEAD");
    assert_eq!(args, vec!["-I".to_string(), "h/".to_string()]);
    let args = format_command(&words("[-X BREW]"), "h/", "BREW");
    assert_eq!(args, words("-X BREW"));
}

#[test]
fn curl_arguments_single_word() {
    let args = format_command(&words("[[x]]"), "h/", "GET");
    assert_eq!(args, words("h/ x"));
}

#[test]
fn thread_menu_choices() {
    match thread_menu("prethread-WebServer -n 2\n") {
        MenuChoice::Prethread(w) => assert_eq!(w, words("prethread-WebServer -n 2")),
        other => panic!("unexpected {:?}", other),
    }
    match thread_menu("HTTPclient -h x [GET]\n") {
        MenuChoice::HttpClient(w) => assert_eq!(w, words("HTTPclient -h x [GET]")),
        other => panic!("unexpected {:?}", other),
    }
    assert!(matches!(thread_menu("preforked-WebServer\n"), MenuChoice::Idle));
    assert!(matches!(thread_menu("stress\n"), MenuChoice::Stress));
    assert!(matches!(thread_menu("exit\n"), MenuChoice::Exit));
    assert!(matches!(thread_menu("hello\n"), MenuChoice::Invalid));
}

#[test]
fn process_menu_choices() {
    match process_menu("preforked-WebServer -n 3\n") {
        MenuChoice::Preforked(w) => assert_eq!(w, words("preforked-WebServer -n 3")),
        other => panic!("unexpected {:?}", other),
    }
    assert!(matches!(process_menu("p\n"), MenuChoice::Preforked(_)));
    assert!(matches!(process_menu("prethread-WebServer\n"), MenuChoice::Idle));
    assert!(matches!(process_menu("HTTPclient\n"), MenuChoice::Idle));
    assert!(matches!(process_menu("exit\n"), MenuChoice::Exit));
    assert!(matches!(process_menu("quit\n"), MenuChoice::Invalid));
}

#[test]
fn words_of_a_line_like_std() {
    for line in ["  a  b \n", "one", "", "x y\r\n"] {
        let expected: Vec<String> = line.trim().split(' ').map(|s| s.to_string()).collect();
        assert_eq!(words_of_line(line), expected);
    }
}

#[test]
fn client_checks_the_documented_example() {
    let plan = parse_client_args(&words("HTTPclient -h localhost:7878/ [GET data=\"title:hi\"]")).unwrap();
    let commands = match plan {
        ClientPlan::Send { commands, .. } => commands,
        other => panic!("unexpected plan {:?}", other),
    };
    let r = validate_commands(&commands);
    assert_eq!(
        r.lines,
        vec!["GET METHOD: GET".to_string(), "GET DATA: data=\"title:hi\"]".to_string()]
    );
    assert!(!r.unpaired);
}

#[test]
fn worker_values_echoed_by_the_process_pool() {
    let w = words("preforked-WebServer -n 2 -w 127.0.0.1 -p 8080");
    assert_eq!(worker_flag_values(&w), vec!["2".to_string()]);
    let a = parse_server_args(&w).unwrap();
    assert_eq!(a.bind_address(), "127.0.0.1:8080");
    assert_eq!(a.workers, 2);
}

#[test]
fn worker_values_in_order_up_to_where_reading_stops() {
    assert_eq!(worker_flag_values(&words("p -n 1 -n 3")), words("1 3"));
    assert_eq!(worker_flag_values(&words("p -n x -n 3")), words("x"));
    assert_eq!(worker_flag_values(&words("p -n 4 -q 1 -n 3")), words("4"));
    assert_eq!(worker_flag_values(&words("p -w h -n 5 -n")), words("5"));
    assert_eq!(worker_flag_values(&words("p")), Vec::<String>::new());
    assert_eq!(worker_flag_values(&vec![]), Vec::<String>::new());
}
