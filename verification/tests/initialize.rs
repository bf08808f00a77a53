use timely_communication::initialize::{
    cluster_text, networking_failure, Answers, Build, ClusterBuild, ClusterTransport, Config,
    Features, Parsed, PendingCluster,
};

const ALL: Features = Features { tcp: true, tls: true, quic: true, shared_memory: true };
const NONE: Features = Features { tcp: false, tls: false, quic: false, shared_memory: false };

fn args(words: &[&str]) -> Vec<String> {
    words.iter().map(|word| word.to_string()).collect()
}

fn ready(words: &[&str]) -> Config {
    match Config::from_args(&args(words), ALL) {
        Ok(Parsed::Ready(config)) => config,
        Ok(Parsed::NeedsHosts(_)) => panic!("needs hosts"),
        Err(message) => panic!("{}", message),
    }
}

fn pending(words: &[&str]) -> PendingCluster {
    match Config::from_args(&args(words), ALL) {
        Ok(Parsed::NeedsHosts(pending)) => pending,
        Ok(Parsed::Ready(_)) => panic!("ready"),
        Err(message) => panic!("{}", message),
    }
}

fn refused(words: &[&str], features: Features) -> String {
    match Config::from_args(&args(words), features) {
        Err(message) => message,
        Ok(_) => panic!("accepted"),
    }
}

fn cluster(intra_host_zero_copy: bool, transport: ClusterTransport) -> Config {
    Config::Cluster {
        threads: 2,
        process: 1,
        addresses: args(&["a:1", "b:2"]),
        report: true,
        intra_process_zero_copy: false,
        intra_host_zero_copy,
        transport,
    }
}

#[test]
fn transports_are_known_by_name() {
    let named = |text| ClusterTransport::from_str(text, ALL);
    assert_eq!(named("tcp"), Ok(ClusterTransport::TCP));
    assert_eq!(named("TCP"), Ok(ClusterTransport::TCP));
    assert_eq!(named("tls"), Ok(ClusterTransport::TLS));
    assert_eq!(named("TLS"), Ok(ClusterTransport::TLS));
    assert_eq!(named("quic"), Ok(ClusterTransport::QUIC));
    assert_eq!(named("QUIC"), Ok(ClusterTransport::QUIC));
    assert_eq!(named("Tcp"), Err("Unknown cluster transport identifier"));
    assert_eq!(named(""), Err("Unknown cluster transport identifier"));
}

#[test]
fn transports_that_are_not_built_are_unknown() {
    for name in ["tcp", "TCP", "tls", "TLS", "quic", "QUIC"] {
        assert_eq!(
            ClusterTransport::from_str(name, NONE),
            Err("Unknown cluster transport identifier"),
        );
    }
    let quic = Features { quic: true, ..NONE };
    assert_eq!(ClusterTransport::from_str("quic", quic), Ok(ClusterTransport::QUIC));
    assert!(ClusterTransport::QUIC.is_built(quic));
    assert!(!ClusterTransport::TCP.is_built(quic));
    assert!(!ClusterTransport::TLS.is_built(quic));
}

#[test]
fn no_arguments_use_one_thread() {
    assert!(matches!(ready(&[]), Config::Thread));
    assert!(matches!(ready(&["program", "input"]), Config::Thread));
    assert!(matches!(ready(&["-w", "1", "-n", "1"]), Config::Thread));
    assert!(matches!(ready(&["-w", "0"]), Config::Thread));
}

#[test]
fn threads_make_a_process() {
    assert!(matches!(ready(&["-w", "4"]), Config::Process(4)));
    assert!(matches!(ready(&["--threads=4"]), Config::Process(4)));
    assert!(matches!(ready(&["-w", "+4", "-n", "0"]), Config::Process(4)));
    assert!(matches!(ready(&["-w4", "-z"]), Config::ProcessBinary(4)));
    assert!(matches!(ready(&["--zerocopy", "-w", "4"]), Config::ProcessBinary(4)));
}

#[test]
fn processes_make_a_cluster_on_this_host() {
    match ready(&["-n", "3", "-p", "2", "-w", "5", "-r", "-t", "quic", "-s"]) {
        Config::Cluster {
            threads,
            process,
            addresses,
            report,
            intra_process_zero_copy,
            intra_host_zero_copy,
            transport,
        } => {
            assert_eq!((threads, process), (5, 2));
            assert_eq!(addresses, args(&["localhost:2101", "localhost:2102", "localhost:2103"]));
            assert!(report);
            assert!(!intra_process_zero_copy);
            assert!(intra_host_zero_copy);
            assert_eq!(transport, ClusterTransport::QUIC);
        }
        _ => panic!("no cluster"),
    }
}

#[test]
fn cluster_uses_tcp_where_nothing_else_is_asked_for() {
    match ready(&["-n", "2", "-z"]) {
        Config::Cluster { threads, process, transport, intra_process_zero_copy, report, .. } => {
            assert_eq!((threads, process), (1, 0));
            assert_eq!(transport, ClusterTransport::TCP);
            assert!(intra_process_zero_copy);
            assert!(!report);
        }
        _ => panic!("no cluster"),
    }
}

#[test]
fn default_addresses_differ() {
    match ready(&["-n", "20"]) {
        Config::Cluster { addresses, .. } => {
            assert_eq!(addresses.len(), 20);
            for i in 0..20 {
                assert_eq!(addresses[i], format!("localhost:{}", 2101 + i));
                for j in 0..i {
                    assert_ne!(addresses[i], addresses[j]);
                }
            }
        }
        _ => panic!("no cluster"),
    }
}

#[test]
fn host_file_is_asked_for() {
    let pending = pending(&["-n", "2", "-h", "hosts.txt", "-w", "3", "-p", "1", "-t", "TLS"]);
    assert_eq!(pending.hostfile, "hosts.txt");
    assert_eq!(pending.processes, 2);
    match pending.complete(args(&["a:1", "b:2", "c:3"])) {
        Ok(Config::Cluster { threads, process, addresses, transport, .. }) => {
            assert_eq!((threads, process), (3, 1));
            assert_eq!(addresses, args(&["a:1", "b:2"]));
            assert_eq!(transport, ClusterTransport::TLS);
        }
        _ => panic!("no cluster"),
    }
}

#[test]
fn host_file_is_ignored_for_one_process() {
    assert!(matches!(ready(&["-h", "hosts.txt"]), Config::Thread));
}

#[test]
fn host_file_with_too_few_lines_is_refused() {
    let message = match pending(&["-n", "3", "-h", "hosts.txt"]).complete(args(&["a:1", "b:2"])) {
        Err(message) => message,
        Ok(_) => panic!("accepted"),
    };
    assert_eq!(message, "could only read 2 addresses from hosts.txt, but -n: 3");
}

#[test]
fn numbers_must_be_numbers() {
    let invalid = "x".parse::<usize>().unwrap_err().to_string();
    let empty = "".parse::<usize>().unwrap_err().to_string();
    let large = "99999999999999999999999".parse::<usize>().unwrap_err().to_string();
    assert_eq!(refused(&["-w", "x"], ALL), invalid);
    assert_eq!(refused(&["-p", ""], ALL), empty);
    assert_eq!(refused(&["-n", "99999999999999999999999"], ALL), large);
    // The first that is wrong decides.
    assert_eq!(refused(&["-n", "x", "-w", ""], ALL), empty);
    assert_eq!(refused(&["-t", "carrier pigeon", "-n", "x"], ALL), invalid);
}

#[test]
fn unknown_transport_is_refused() {
    let unknown = "Unknown cluster transport identifier";
    assert_eq!(refused(&["-t", "carrier pigeon"], ALL), unknown);
    assert_eq!(refused(&["-t", "tcp"], NONE), unknown);
}

#[test]
fn options_that_are_not_installed_are_refused() {
    assert_eq!(refused(&["-x"], ALL), "Unrecognized option: 'x'");
    assert_eq!(refused(&["-s"], NONE), "Unrecognized option: 's'");
    assert_eq!(refused(&["-w"], ALL), "Argument to option 'w' missing");
    assert_eq!(refused(&["-r", "-r"], ALL), "Option 'report' given more than once");
}

#[test]
fn installed_options_stand_beside_others() {
    let mut opts = getopts::Options::new();
    opts.optflag("v", "verbose", "say more");
    Config::install_options(&mut opts, ALL);
    let matches = opts.parse(["-v", "-w", "2"]).unwrap();
    assert!(matches.opt_present("v"));
    match Config::from_matches(&matches, ALL) {
        Ok(Parsed::Ready(Config::Process(2))) => {}
        _ => panic!("not two threads"),
    }
    for name in ["w", "p", "n", "h", "transport", "report", "zerocopy", "sharedmemory"] {
        assert!(matches.opt_defined(name));
    }
    let usage = opts.usage("");
    for line in [
        "-w, --threads NUM",
        "-p, --process IDX",
        "-n, --processes NUM",
        "-h, --hostfile FILE",
        "-t, --transport tcp|tls|quic",
        "-r, --report",
        "-z, --zerocopy",
        "-s, --sharedmemory",
        "number of per-process worker threads",
        "identity of this process",
        "number of processes",
        "text file whose lines are process addresses",
        "cluster transport",
        "reports connection progress",
    ] {
        assert!(usage.contains(line), "{}", line);
    }
}

#[test]
fn answers_decide_the_configuration() {
    let answers = |threads, processes| Answers {
        threads: Ok(threads),
        process: Ok(0),
        processes: Ok(processes),
        report: false,
        zerocopy: false,
        sharedmemory: true,
        transport: None,
        hostfile: None,
    };
    assert!(matches!(
        Config::from_answers(answers(1, 1), NONE),
        Ok(Parsed::Ready(Config::Thread))
    ));
    assert!(matches!(
        Config::from_answers(answers(2, 1), NONE),
        Ok(Parsed::Ready(Config::Process(2)))
    ));
    assert!(matches!(
        Config::from_answers(answers(2, 2), NONE),
        Ok(Parsed::Ready(Config::Cluster {
            intra_host_zero_copy: true,
            transport: ClusterTransport::TCP,
            ..
        }))
    ));
    let failing = Answers { process: Err("no number".to_string()), ..answers(1, 1) };
    assert!(matches!(Config::from_answers(failing, NONE), Err(message) if message == "no number"));
}

#[test]
fn one_process_can_be_built() {
    assert!(matches!(Config::Thread.plan(NONE), Ok(Build::Thread)));
    assert!(matches!(Config::Process(3).plan(NONE), Ok(Build::Process(3))));
    assert!(matches!(Config::ProcessBinary(3).plan(NONE), Ok(Build::ProcessBinary(3))));
}

#[test]
fn cluster_can_be_built_over_each_transport() {
    for transport in [ClusterTransport::TCP, ClusterTransport::TLS, ClusterTransport::QUIC] {
        match cluster(false, transport).plan(ALL) {
            Ok(Build::Cluster(ClusterBuild {
                addresses,
                process,
                threads,
                ipc,
                noisy,
                serializing,
                transport: chosen,
            })) => {
                assert_eq!(addresses, args(&["a:1", "b:2"]));
                assert_eq!((process, threads), (1, 2));
                assert!(!ipc);
                assert!(noisy);
                assert!(!serializing);
                assert_eq!(chosen, transport);
            }
            _ => panic!("not built"),
        }
    }
}

#[test]
fn tcp_does_not_go_with_shared_memory() {
    let message = "unsupported cluster configuration";
    assert_eq!(cluster(true, ClusterTransport::TCP).plan(ALL).unwrap_err(), message);
    assert!(cluster(true, ClusterTransport::TLS).plan(ALL).is_ok());
    assert!(cluster(true, ClusterTransport::QUIC).plan(ALL).is_ok());
}

#[test]
fn transport_that_is_not_built_is_not_supported() {
    let message = "unsupported cluster configuration";
    for transport in [ClusterTransport::TCP, ClusterTransport::TLS, ClusterTransport::QUIC] {
        assert_eq!(cluster(false, transport).plan(NONE).unwrap_err(), message);
    }
}

#[test]
fn failed_networking_is_reported() {
    assert_eq!(networking_failure("refused"), "failed to initialize networking: refused");
}

#[test]
fn configurations_have_their_texts() {
    assert_eq!(Config::Thread.debug_text(), "Config::Thread()");
    assert_eq!(Config::Process(2).debug_text(), "Config::Process(2)");
    assert_eq!(Config::ProcessBinary(12).debug_text(), "Config::ProcessBinary(12)");
    assert_eq!(
        cluster(false, ClusterTransport::TCP).debug_text(),
        "Config::Cluster { threads: 2, process: 1, addresses: [\"a:1\", \"b:2\"], report: true, \
         zerocopy: false, .. }",
    );
}

#[test]
fn addresses_are_quoted_in_texts() {
    let config = Config::Cluster {
        threads: 1,
        process: 0,
        addresses: args(&["quote\"tab\t"]),
        report: false,
        intra_process_zero_copy: true,
        intra_host_zero_copy: false,
        transport: ClusterTransport::TCP,
    };
    assert_eq!(
        config.debug_text(),
        format!(
            "Config::Cluster {{ threads: 1, process: 0, addresses: {:?}, report: false, \
             zerocopy: true, .. }}",
            vec!["quote\"tab\t"],
        ),
    );
    assert_eq!(
        cluster_text(1, 0, &vec![], true, true),
        "Config::Cluster { threads: 1, process: 0, addresses: [], report: true, zerocopy: true, .. }",
    );
}

#[test]
fn configurations_of_a_command_line_can_be_built() {
    for words in [
        vec![],
        vec!["-w", "2"],
        vec!["-w", "2", "-z"],
        vec!["-n", "2"],
        vec!["-n", "2", "-t", "tls", "-s"],
        vec!["-n", "2", "-t", "quic", "-s", "-z"],
    ] {
        assert!(ready(&words).plan(ALL).is_ok());
    }
    assert!(ready(&["-n", "2", "-s"]).plan(ALL).is_err());
}
