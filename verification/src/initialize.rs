//! Initialization logic for the communication infrastructure.

use vstd::prelude::*;
use vstd::string::*;

use getopts::{Matches, Options};

use crate::allocator::generic::{
    AllocatorKind, GenericAllocator, GenericBuilder, law_building_keeps_kind,
    law_wrapping_keeps_workers,
};
use crate::allocator::{
    Allocate, AllocatorBuilder, PeerBuilder, built, in_order, law_workers_of_a_process,
};
use crate::options::{
    Group, first_value, flag, has_both_names, installed, no_options, number_of, occurrences,
    opt_get_default, opt_present, opt_str, optflag, optopt, parse, parsed, parsing_style,
    with_argument,
};
use crate::text::{decimal, decimal_text, law_numbered_injective, numbered};

verus! {

/// What the crate has been built with.
#[derive(Debug, PartialEq, Eq, Structural, Clone, Copy)]
pub struct Features {
    /// The TCP transport.
    pub tcp: bool,
    /// The TLS transport.
    pub tls: bool,
    /// The QUIC transport.
    pub quic: bool,
    /// Shared memory between the processes of a host.
    pub shared_memory: bool,
}

/// Possible configurations for the communication infrastructure.
#[derive(Debug, PartialEq, Eq, Structural, Clone, Copy)]
pub enum ClusterTransport {
    /// Transmission Control Protocol (TCP) for communication between processes
    TCP,
    /// Transmission Control Protocol (TCP) with Transport Layer Security (TLS)
    /// for communication between processes
    TLS,
    /// Quick UDP Internet Connections (QUIC) for communication between processes
    QUIC,
}

/// The transport that `text` names, if it has been built.
pub open spec fn transport_named(text: Seq<char>, features: Features) -> Option<ClusterTransport> {
    if features.tcp && (text == "tcp"@ || text == "TCP"@) {
        Some(ClusterTransport::TCP)
    } else if features.quic && (text == "quic"@ || text == "QUIC"@) {
        Some(ClusterTransport::QUIC)
    } else if features.tls && (text == "tls"@ || text == "TLS"@) {
        Some(ClusterTransport::TLS)
    } else {
        None
    }
}

/// What is said of a name that is none of a transport.
pub open spec fn unknown_transport() -> Seq<char> {
    "Unknown cluster transport identifier"@
}

/// Whether two texts are equal.
fn same(a: &str, b: &str) -> (same: bool)
    ensures
        same == (a@ == b@),
{
    a.to_owned() == b.to_owned()
}

impl ClusterTransport {
    /// The transport that `s` names, if it has been built.
    pub fn from_str(s: &str, features: Features) -> (transport: Result<
        ClusterTransport,
        &'static str,
    >)
        ensures
            match transport_named(s@, features) {
                Some(named) => transport == Ok::<ClusterTransport, &'static str>(named),
                None => transport matches Err(message) && message@ == unknown_transport(),
            },
            transport == Ok::<ClusterTransport, &'static str>(ClusterTransport::TCP)
                <==> features.tcp && (s@ == "tcp"@ || s@ == "TCP"@),
            transport == Ok::<ClusterTransport, &'static str>(ClusterTransport::TLS)
                <==> features.tls && (s@ == "tls"@ || s@ == "TLS"@),
            transport == Ok::<ClusterTransport, &'static str>(ClusterTransport::QUIC)
                <==> features.quic && (s@ == "quic"@ || s@ == "QUIC"@),
            transport matches Err(message) ==> message@ == "Unknown cluster transport identifier"@,
    {
        proof {
            law_transport_names(s@, features);
        }
        if features.tcp && (same(s, "tcp") || same(s, "TCP")) {
            Ok(ClusterTransport::TCP)
        } else if features.quic && (same(s, "quic") || same(s, "QUIC")) {
            Ok(ClusterTransport::QUIC)
        } else if features.tls && (same(s, "tls") || same(s, "TLS")) {
            Ok(ClusterTransport::TLS)
        } else {
            Err("Unknown cluster transport identifier")
        }
    }

    /// Whether the transport has been built.
    pub open spec fn built(self, features: Features) -> bool {
        match self {
            ClusterTransport::TCP => features.tcp,
            ClusterTransport::TLS => features.tls,
            ClusterTransport::QUIC => features.quic,
        }
    }

    /// Whether the transport has been built.
    pub fn is_built(&self, features: Features) -> (built: bool)
        ensures
            built == self.built(features),
            *self is TCP ==> built == features.tcp,
            *self is TLS ==> built == features.tls,
            *self is QUIC ==> built == features.quic,
    {
        match self {
            ClusterTransport::TCP => features.tcp,
            ClusterTransport::TLS => features.tls,
            ClusterTransport::QUIC => features.quic,
        }
    }
}

/// A transport that is named has been built, and each that has been built can be named.
pub proof fn law_named_transports_are_built(
    text: Seq<char>,
    transport: ClusterTransport,
    features: Features,
)
    ensures
        transport_named(text, features) == Some(transport) ==> transport.built(features),
        transport.built(features) ==> {
            let lower = match transport {
                ClusterTransport::TCP => "tcp"@,
                ClusterTransport::TLS => "tls"@,
                ClusterTransport::QUIC => "quic"@,
            };
            transport_named(lower, features) == Some(transport)
        },
{
    reveal_strlit("tcp");
    reveal_strlit("TCP");
    reveal_strlit("tls");
    reveal_strlit("TLS");
    reveal_strlit("quic");
    reveal_strlit("QUIC");
    assert("tls"@[1] == 'l');
    assert("tcp"@[1] == 'c');
    assert("TCP"@[0] == 'T');
    assert("tls"@[0] == 't');
    assert("QUIC"@.len() == 4);
}

/// Each transport has two names, one in small and one in capital letters, which name it where it has
/// been built and no other; any other text names none.
pub proof fn law_transport_names(text: Seq<char>, features: Features)
    ensures
        transport_named(text, features) == Some(ClusterTransport::TCP) <==> features.tcp && (text
            == "tcp"@ || text == "TCP"@),
        transport_named(text, features) == Some(ClusterTransport::TLS) <==> features.tls && (text
            == "tls"@ || text == "TLS"@),
        transport_named(text, features) == Some(ClusterTransport::QUIC) <==> features.quic && (text
            == "quic"@ || text == "QUIC"@),
        ClusterTransport::TCP.built(features) == features.tcp,
        ClusterTransport::TLS.built(features) == features.tls,
        ClusterTransport::QUIC.built(features) == features.quic,
        unknown_transport() == "Unknown cluster transport identifier"@,
{
    reveal_strlit("tcp");
    reveal_strlit("TCP");
    reveal_strlit("tls");
    reveal_strlit("TLS");
    reveal_strlit("quic");
    reveal_strlit("QUIC");
    assert("tcp"@[1] == 'c' && "TCP"@[1] == 'C' && "tls"@[1] == 'l' && "TLS"@[1] == 'L');
    assert("quic"@.len() == 4 && "QUIC"@.len() == 4);
}

/// Possible configurations for the communication infrastructure.
#[derive(Clone)]
pub enum Config {
    /// Use one thread.
    Thread,
    /// Use one process with an indicated number of threads.
    Process(usize),
    /// Use one process with an indicated number of threads. Use zero-copy exchange channels.
    ProcessBinary(usize),
    /// Expect multiple processes.
    Cluster {
        /// Number of per-process worker threads
        threads: usize,
        /// Identity of this process
        process: usize,
        /// Addresses of all processes
        addresses: Vec<String>,
        /// Verbosely report connection process
        report: bool,
        /// Enable intra-process zero-copy (between threads in the same process)
        intra_process_zero_copy: bool,
        /// Enable intra-host zero-copy (between processes on the same host)
        intra_host_zero_copy: bool,
        /// The network transport to use between processes
        ///
        /// Workers threads in processes across hosts always rely on networking.
        /// Workers threads in different processes on the same host communicate using
        /// the given transports only if `intra_host_zero_copy` is false.
        ///
        /// Currently, using TCP and enabling intra-host zero copy communication is not supported.
        transport: ClusterTransport,
    },
}

/// A configuration, with texts as sequences of characters.
pub enum ConfigView {
    /// One thread.
    Thread,
    /// One process with a number of threads.
    Process(usize),
    /// One process with a number of threads and zero-copy exchange channels.
    ProcessBinary(usize),
    /// Multiple processes.
    Cluster {
        /// Number of threads of a process.
        threads: usize,
        /// Index of this process.
        process: usize,
        /// Addresses of all processes.
        addresses: Seq<Seq<char>>,
        /// Whether progress is reported.
        report: bool,
        /// Zero copy between threads.
        intra_process_zero_copy: bool,
        /// Zero copy between processes of a host.
        intra_host_zero_copy: bool,
        /// The transport.
        transport: ClusterTransport,
    },
}

/// The texts of a list of strings.
pub open spec fn texts(strings: Seq<String>) -> Seq<Seq<char>> {
    Seq::new(strings.len(), |i: int| strings[i]@)
}

impl View for Config {
    type V = ConfigView;

    open spec fn view(&self) -> ConfigView {
        match *self {
            Config::Thread => ConfigView::Thread,
            Config::Process(threads) => ConfigView::Process(threads),
            Config::ProcessBinary(threads) => ConfigView::ProcessBinary(threads),
            Config::Cluster {
                threads,
                process,
                addresses,
                report,
                intra_process_zero_copy,
                intra_host_zero_copy,
                transport,
            } => ConfigView::Cluster {
                threads,
                process,
                addresses: texts(addresses@),
                report,
                intra_process_zero_copy,
                intra_host_zero_copy,
                transport,
            },
        }
    }
}

/// What a command line says of the configuration.
pub struct Answers {
    /// Number of threads of a process, or what is wrong with it.
    pub threads: Result<usize, String>,
    /// Index of this process, or what is wrong with it.
    pub process: Result<usize, String>,
    /// Number of processes, or what is wrong with it.
    pub processes: Result<usize, String>,
    /// Whether progress is reported.
    pub report: bool,
    /// Zero copy between threads.
    pub zerocopy: bool,
    /// Zero copy between processes of a host.
    pub sharedmemory: bool,
    /// The name of the transport, if it is given.
    pub transport: Option<String>,
    /// The name of the file that lists the addresses, if it is given.
    pub hostfile: Option<String>,
}

/// What a command line says of the configuration, with texts as sequences of characters.
pub struct AnswersView {
    /// Number of threads of a process, or what is wrong with it.
    pub threads: Result<usize, Seq<char>>,
    /// Index of this process, or what is wrong with it.
    pub process: Result<usize, Seq<char>>,
    /// Number of processes, or what is wrong with it.
    pub processes: Result<usize, Seq<char>>,
    /// Whether progress is reported.
    pub report: bool,
    /// Zero copy between threads.
    pub zerocopy: bool,
    /// Zero copy between processes of a host.
    pub sharedmemory: bool,
    /// The name of the transport, if it is given.
    pub transport: Option<Seq<char>>,
    /// The name of the file that lists the addresses, if it is given.
    pub hostfile: Option<Seq<char>>,
}

/// A number or a text.
pub open spec fn number_view(number: Result<usize, String>) -> Result<usize, Seq<char>> {
    match number {
        Ok(n) => Ok(n),
        Err(message) => Err(message@),
    }
}

/// A text, if there is one.
pub open spec fn text_view(text: Option<String>) -> Option<Seq<char>> {
    match text {
        Some(text) => Some(text@),
        None => None,
    }
}

impl View for Answers {
    type V = AnswersView;

    open spec fn view(&self) -> AnswersView {
        AnswersView {
            threads: number_view(self.threads),
            process: number_view(self.process),
            processes: number_view(self.processes),
            report: self.report,
            zerocopy: self.zerocopy,
            sharedmemory: self.sharedmemory,
            transport: text_view(self.transport),
            hostfile: text_view(self.hostfile),
        }
    }
}

/// A configuration of multiple processes whose addresses are still to be read from a file.
#[derive(Debug, Clone)]
pub struct PendingCluster {
    /// The name of the file.
    pub hostfile: String,
    /// The number of processes, and of lines that are needed.
    pub processes: usize,
    /// Number of threads of a process.
    pub threads: usize,
    /// Index of this process.
    pub process: usize,
    /// Whether progress is reported.
    pub report: bool,
    /// Zero copy between threads.
    pub intra_process_zero_copy: bool,
    /// Zero copy between processes of a host.
    pub intra_host_zero_copy: bool,
    /// The transport.
    pub transport: ClusterTransport,
}

/// A configuration, or what is known of it before a file is read.
#[derive(Clone)]
pub enum Parsed {
    /// The configuration.
    Ready(Config),
    /// The addresses are still to be read.
    NeedsHosts(PendingCluster),
}

/// The settings of multiple processes, with the name of the file of their addresses.
pub struct PendingView {
    /// The name of the file.
    pub hostfile: Seq<char>,
    /// The number of processes.
    pub processes: usize,
    /// Number of threads of a process.
    pub threads: usize,
    /// Index of this process.
    pub process: usize,
    /// Whether progress is reported.
    pub report: bool,
    /// Zero copy between threads.
    pub intra_process_zero_copy: bool,
    /// Zero copy between processes of a host.
    pub intra_host_zero_copy: bool,
    /// The transport.
    pub transport: ClusterTransport,
}

/// A configuration, or what is known of it before a file is read.
pub enum ParsedView {
    /// The configuration.
    Ready(ConfigView),
    /// The addresses are still to be read.
    NeedsHosts(PendingView),
}

impl View for PendingCluster {
    type V = PendingView;

    open spec fn view(&self) -> PendingView {
        PendingView {
            hostfile: self.hostfile@,
            processes: self.processes,
            threads: self.threads,
            process: self.process,
            report: self.report,
            intra_process_zero_copy: self.intra_process_zero_copy,
            intra_host_zero_copy: self.intra_host_zero_copy,
            transport: self.transport,
        }
    }
}

impl View for Parsed {
    type V = ParsedView;

    open spec fn view(&self) -> ParsedView {
        match *self {
            Parsed::Ready(config) => ParsedView::Ready(config@),
            Parsed::NeedsHosts(pending) => ParsedView::NeedsHosts(pending@),
        }
    }
}

/// The address of process `i` where no file lists the addresses.
pub open spec fn default_address(i: int) -> Seq<char> {
    "localhost:"@ + decimal((2101 + i) as nat)
}

/// The transport that is asked for, TCP where none is.
pub open spec fn transport_of(
    text: Option<Seq<char>>,
    features: Features,
) -> Option<ClusterTransport> {
    match text {
        Some(text) => transport_named(text, features),
        None => Some(ClusterTransport::TCP),
    }
}

/// The configuration that the answers describe. The first of the numbers that is wrong decides
/// what is said of it.
pub open spec fn configuration(answers: AnswersView, features: Features) -> Result<
    ParsedView,
    Seq<char>,
> {
    match (answers.threads, answers.process, answers.processes, transport_of(
        answers.transport,
        features,
    )) {
        (Err(message), _, _, _) => Err(message),
        (_, Err(message), _, _) => Err(message),
        (_, _, Err(message), _) => Err(message),
        (_, _, _, None) => Err(unknown_transport()),
        (Ok(threads), Ok(process), Ok(processes), Some(transport)) => if processes > 1 {
            match answers.hostfile {
                Some(hostfile) => Ok(
                    ParsedView::NeedsHosts(
                        PendingView {
                            hostfile,
                            processes,
                            threads,
                            process,
                            report: answers.report,
                            intra_process_zero_copy: answers.zerocopy,
                            intra_host_zero_copy: answers.sharedmemory,
                            transport,
                        },
                    ),
                ),
                None => Ok(
                    ParsedView::Ready(
                        ConfigView::Cluster {
                            threads,
                            process,
                            addresses: Seq::new(processes as nat, |i: int| default_address(i)),
                            report: answers.report,
                            intra_process_zero_copy: answers.zerocopy,
                            intra_host_zero_copy: answers.sharedmemory,
                            transport,
                        },
                    ),
                ),
            }
        } else if threads > 1 {
            if answers.zerocopy {
                Ok(ParsedView::Ready(ConfigView::ProcessBinary(threads)))
            } else {
                Ok(ParsedView::Ready(ConfigView::Process(threads)))
            }
        } else {
            Ok(ParsedView::Ready(ConfigView::Thread))
        },
    }
}

/// Whether `result` is `expected`.
pub open spec fn agrees(
    result: Result<Parsed, String>,
    expected: Result<ParsedView, Seq<char>>,
) -> bool {
    match expected {
        Ok(parsed) => result matches Ok(r) && r@ == parsed,
        Err(message) => result matches Err(e) && e@ == message,
    }
}

/// The addresses where no file lists them.
fn default_addresses(processes: usize) -> (addresses: Vec<String>)
    ensures
        texts(addresses@) == Seq::new(processes as nat, |i: int| default_address(i)),
        addresses@.len() == processes,
{
    let mut addresses: Vec<String> = Vec::new();
    let mut index: usize = 0;
    while index < processes
        invariant
            index <= processes,
            addresses@.len() == index,
            forall|i: int| 0 <= i < index ==> (#[trigger] addresses@[i])@ == default_address(i),
        decreases processes - index,
    {
        addresses.push(numbered("localhost:", 2101 + index as u128));
        index = index + 1;
    }
    assert(texts(addresses@) =~= Seq::new(processes as nat, |i: int| default_address(i)));
    addresses
}

impl Config {
    /// The configuration that the answers of a command line describe.
    pub fn from_answers(answers: Answers, features: Features) -> (result: Result<Parsed, String>)
        ensures
            agrees(result, configuration(answers@, features)),
            result matches Ok(Parsed::NeedsHosts(pending)) ==> {
                &&& answers.hostfile matches Some(hostfile) && pending.hostfile@ == hostfile@
                &&& answers.processes == Ok::<usize, String>(pending.processes)
                &&& answers.threads == Ok::<usize, String>(pending.threads)
                &&& answers.process == Ok::<usize, String>(pending.process)
                &&& pending.report == answers.report
                &&& pending.intra_process_zero_copy == answers.zerocopy
                &&& pending.intra_host_zero_copy == answers.sharedmemory
            },
            result matches Ok(Parsed::Ready(Config::Cluster {
                threads,
                process,
                addresses,
                report,
                intra_process_zero_copy,
                intra_host_zero_copy,
                ..
            })) ==> {
                &&& answers.hostfile is None
                &&& answers.processes == Ok::<usize, String>(addresses.len())
                &&& answers.threads == Ok::<usize, String>(threads)
                &&& answers.process == Ok::<usize, String>(process)
                &&& report == answers.report
                &&& intra_process_zero_copy == answers.zerocopy
                &&& intra_host_zero_copy == answers.sharedmemory
            },
    {
        let threads = match answers.threads {
            Ok(threads) => threads,
            Err(message) => return Err(message),
        };
        let process = match answers.process {
            Ok(process) => process,
            Err(message) => return Err(message),
        };
        let processes = match answers.processes {
            Ok(processes) => processes,
            Err(message) => return Err(message),
        };
        let transport = match answers.transport {
            Some(text) => match ClusterTransport::from_str(text.as_str(), features) {
                Ok(transport) => transport,
                Err(message) => return Err(message.to_owned()),
            },
            None => ClusterTransport::TCP,
        };
        if processes > 1 {
            match answers.hostfile {
                Some(hostfile) => Ok(
                    Parsed::NeedsHosts(
                        PendingCluster {
                            hostfile,
                            processes,
                            threads,
                            process,
                            report: answers.report,
                            intra_process_zero_copy: answers.zerocopy,
                            intra_host_zero_copy: answers.sharedmemory,
                            transport,
                        },
                    ),
                ),
                None => Ok(
                    Parsed::Ready(
                        Config::Cluster {
                            threads,
                            process,
                            addresses: default_addresses(processes),
                            report: answers.report,
                            intra_process_zero_copy: answers.zerocopy,
                            intra_host_zero_copy: answers.sharedmemory,
                            transport,
                        },
                    ),
                ),
            }
        } else if threads > 1 {
            if answers.zerocopy {
                Ok(Parsed::Ready(Config::ProcessBinary(threads)))
            } else {
                Ok(Parsed::Ready(Config::Process(threads)))
            }
        } else {
            Ok(Parsed::Ready(Config::Thread))
        }
    }
}

impl PendingCluster {
    /// The configuration, with the addresses that the first lines of the file list.
    pub fn complete(self, lines: Vec<String>) -> (result: Result<Config, String>)
        ensures
            if lines@.len() >= self.processes {
                &&& result matches Ok(config)
                &&& config@ == (ConfigView::Cluster {
                    threads: self.threads,
                    process: self.process,
                    addresses: texts(lines@).take(self.processes as int),
                    report: self.report,
                    intra_process_zero_copy: self.intra_process_zero_copy,
                    intra_host_zero_copy: self.intra_host_zero_copy,
                    transport: self.transport,
                })
                &&& config matches Config::Cluster {
                    threads,
                    process,
                    addresses,
                    report,
                    intra_process_zero_copy,
                    intra_host_zero_copy,
                    transport,
                }
                &&& threads == self.threads
                &&& process == self.process
                &&& addresses@.len() == self.processes
                &&& forall|i: int|
                    0 <= i < self.processes ==> (#[trigger] addresses@[i])@ == lines@[i]@
                &&& report == self.report
                &&& intra_process_zero_copy == self.intra_process_zero_copy
                &&& intra_host_zero_copy == self.intra_host_zero_copy
                &&& transport == self.transport
            } else {
                &&& result matches Err(message)
                &&& message@ == too_few_addresses(
                    lines@.len(),
                    self.hostfile@,
                    self.processes as nat,
                )
                &&& message@ == "could only read "@ + decimal(lines@.len()) + " addresses from "@
                    + self.hostfile@ + ", but -n: "@ + decimal(self.processes as nat)
            },
    {
        if lines.len() < self.processes {
            let message = numbered("could only read ", lines.len() as u128).concat(
                " addresses from ",
            ).concat(self.hostfile.as_str()).concat(", but -n: ").concat(
                decimal_text(self.processes as u128).as_str(),
            );
            return Err(message);
        }
        let ghost all = lines@;
        let mut addresses = lines;
        let rest = addresses.split_off(self.processes);
        assert(texts(addresses@) =~= texts(all).take(self.processes as int));
        Ok(
            Config::Cluster {
                threads: self.threads,
                process: self.process,
                addresses,
                report: self.report,
                intra_process_zero_copy: self.intra_process_zero_copy,
                intra_host_zero_copy: self.intra_host_zero_copy,
                transport: self.transport,
            },
        )
    }
}

/// What is said of a file that lists too few addresses.
pub open spec fn too_few_addresses(read: nat, hostfile: Seq<char>, processes: nat) -> Seq<char> {
    "could only read "@ + decimal(read) + " addresses from "@ + hostfile + ", but -n: "@ + decimal(
        processes,
    )
}

/// The options that describe a configuration.
pub open spec fn timely_options(features: Features) -> Seq<Group> {
    let always = seq![
        with_argument("w", "threads", "number of per-process worker threads", "NUM"),
        with_argument("p", "process", "identity of this process", "IDX"),
        with_argument("n", "processes", "number of processes", "NUM"),
        with_argument("h", "hostfile", "text file whose lines are process addresses", "FILE"),
        with_argument("t", "transport", "cluster transport", "tcp|tls|quic"),
        flag("r", "report", "reports connection progress"),
        flag("z", "zerocopy", "enable zero-copy for intra-process communication"),
    ];
    if features.shared_memory {
        always.push(
            flag(
                "s",
                "sharedmemory",
                "enable zero-copy for intra-host communication using shared memory",
            ),
        )
    } else {
        always
    }
}

/// Whether the options that describe a configuration can be asked for.
pub open spec fn can_be_asked(
    given: Map<Seq<char>, Seq<Option<Seq<char>>>>,
    features: Features,
) -> bool {
    &&& given.dom().contains("w"@)
    &&& given.dom().contains("p"@)
    &&& given.dom().contains("n"@)
    &&& given.dom().contains("h"@)
    &&& given.dom().contains("transport"@)
    &&& given.dom().contains("report"@)
    &&& given.dom().contains("zerocopy"@)
    &&& features.shared_memory ==> given.dom().contains("sharedmemory"@)
}

/// Whether each of the options can be asked for by either of its names.
pub open spec fn answers_for(
    given: Map<Seq<char>, Seq<Option<Seq<char>>>>,
    groups: Seq<Group>,
) -> bool {
    forall|i: int|
        0 <= i < groups.len() ==> {
            &&& given.dom().contains((#[trigger] groups[i]).0)
            &&& given.dom().contains(groups[i].1)
        }
}

/// What can be asked for of the options that describe a configuration, among others, is all that
/// the configuration depends on.
pub proof fn law_installed_options_can_be_asked(
    given: Map<Seq<char>, Seq<Option<Seq<char>>>>,
    others: Seq<Group>,
    later: Seq<Group>,
    features: Features,
)
    requires
        answers_for(given, others + timely_options(features) + later),
    ensures
        can_be_asked(given, features),
{
    let groups = others + timely_options(features) + later;
    let n = others.len() as int;
    assert forall|i: int| 0 <= i < timely_options(features).len() implies {
        &&& given.dom().contains((#[trigger] timely_options(features)[i]).0)
        &&& given.dom().contains(timely_options(features)[i].1)
    } by {
        assert(groups[n + i] == timely_options(features)[i]);
    }
    let options = timely_options(features);
    assert(options[0].0 == "w"@);
    assert(options[1].0 == "p"@);
    assert(options[2].0 == "n"@);
    assert(options[3].0 == "h"@);
    assert(options[4].1 == "transport"@);
    assert(options[5].1 == "report"@);
    assert(options[6].1 == "zerocopy"@);
    if features.shared_memory {
        assert(options[7].1 == "sharedmemory"@);
    }
}

/// Each of the options has a short and a long name.
proof fn lemma_names(features: Features)
    ensures
        forall|i: int|
            0 <= i < timely_options(features).len() ==> has_both_names(
                #[trigger] timely_options(features)[i],
            ),
{
    reveal_strlit("w");
    reveal_strlit("threads");
    reveal_strlit("p");
    reveal_strlit("process");
    reveal_strlit("n");
    reveal_strlit("processes");
    reveal_strlit("h");
    reveal_strlit("hostfile");
    reveal_strlit("t");
    reveal_strlit("transport");
    reveal_strlit("r");
    reveal_strlit("report");
    reveal_strlit("z");
    reveal_strlit("zerocopy");
    reveal_strlit("s");
    reveal_strlit("sharedmemory");
}

/// What the options say of the configuration.
pub open spec fn answers_of(
    given: Map<Seq<char>, Seq<Option<Seq<char>>>>,
    features: Features,
) -> AnswersView {
    AnswersView {
        threads: number_of(given, "w"@, 1),
        process: number_of(given, "p"@, 0),
        processes: number_of(given, "n"@, 1),
        report: given["report"@].len() > 0,
        zerocopy: given["zerocopy"@].len() > 0,
        sharedmemory: features.shared_memory && given["sharedmemory"@].len() > 0,
        transport: first_value(given, "transport"@),
        hostfile: first_value(given, "h"@),
    }
}

impl Config {
    /// Installs options into a `getopts::Options` struct that corresponds
    /// to the parameters in the configuration.
    ///
    /// It is the caller's responsibility to ensure that the installed options
    /// do not conflict with any other options that may exist in `opts`, or
    /// that may be installed into `opts` in the future.
    pub fn install_options(opts: &mut Options, features: Features)
        ensures
            installed(*final(opts)) == installed(*old(opts)) + timely_options(features),
            parsing_style(*final(opts)) == parsing_style(*old(opts)),
    {
        proof {
            lemma_names(features);
            let options = timely_options(features);
            assert(has_both_names(options[0]) && has_both_names(options[1]) && has_both_names(
                options[2],
            ) && has_both_names(options[3]) && has_both_names(options[4]) && has_both_names(
                options[5],
            ) && has_both_names(options[6]));
            if features.shared_memory {
                assert(has_both_names(options[7]));
            }
        }
        optopt(opts, "w", "threads", "number of per-process worker threads", "NUM");
        optopt(opts, "p", "process", "identity of this process", "IDX");
        optopt(opts, "n", "processes", "number of processes", "NUM");
        optopt(opts, "h", "hostfile", "text file whose lines are process addresses", "FILE");
        optopt(opts, "t", "transport", "cluster transport", "tcp|tls|quic");
        optflag(opts, "r", "report", "reports connection progress");
        optflag(opts, "z", "zerocopy", "enable zero-copy for intra-process communication");
        if features.shared_memory {
            optflag(
                opts,
                "s",
                "sharedmemory",
                "enable zero-copy for intra-host communication using shared memory",
            );
        }
        assert(installed(*opts) =~= installed(*old(opts)) + timely_options(features));
    }

    /// Instantiates a configuration based upon the parsed options in `matches`.
    ///
    /// The `matches` object must have been constructed from a `getopts::Options` which contained
    /// at least the options installed by `install_options`.
    pub fn from_matches(matches: &Matches, features: Features) -> (result: Result<Parsed, String>)
        requires
            can_be_asked(occurrences(*matches), features),
        ensures
            agrees(result, configuration(answers_of(occurrences(*matches), features), features)),
    {
        let answers = Answers {
            threads: opt_get_default(matches, "w", 1),
            process: opt_get_default(matches, "p", 0),
            processes: opt_get_default(matches, "n", 1),
            report: opt_present(matches, "report"),
            zerocopy: opt_present(matches, "zerocopy"),
            sharedmemory: features.shared_memory && opt_present(matches, "sharedmemory"),
            transport: opt_str(matches, "transport"),
            hostfile: opt_str(matches, "h"),
        };
        assert(answers@ == answers_of(occurrences(*matches), features));
        Config::from_answers(answers, features)
    }

    /// Constructs a new configuration by parsing the supplied text arguments.
    ///
    /// Most commonly, callers supply the arguments of the program.
    pub fn from_args(args: &Vec<String>, features: Features) -> (result: Result<Parsed, String>)
        ensures
            agrees(
                result,
                match parsed(timely_options(features), (false, false), texts(args@)) {
                    Ok(given) => configuration(answers_of(given, features), features),
                    Err(message) => Err(message),
                },
            ),
    {
        let mut opts = no_options();
        Config::install_options(&mut opts, features);
        proof {
            lemma_names(features);
            assert(installed(opts) =~= timely_options(features));
        }
        match parse(&opts, args) {
            Ok(matches) => {
                proof {
                    let given = occurrences(matches);
                    let options = timely_options(features);
                    assert(Seq::empty() + options + Seq::empty() =~= options);
                    law_installed_options_can_be_asked(given, Seq::empty(), Seq::empty(), features);
                }
                Config::from_matches(&matches, features)
            },
            Err(message) => Err(message),
        }
    }
}

/// The communication infrastructure that a configuration asks for.
#[derive(Debug)]
pub enum Build {
    /// One worker on the current thread.
    Thread,
    /// As many workers as threads, which exchange typed values.
    Process(usize),
    /// As many workers as threads, which exchange bytes.
    ProcessBinary(usize),
    /// Workers in several processes.
    Cluster(ClusterBuild),
}

/// What the processes of a cluster are connected with.
#[derive(Debug)]
pub struct ClusterBuild {
    /// Addresses of all processes.
    pub addresses: Vec<String>,
    /// Index of this process.
    pub process: usize,
    /// Number of threads of a process.
    pub threads: usize,
    /// Whether the processes of a host share memory.
    pub ipc: bool,
    /// Whether progress is reported.
    pub noisy: bool,
    /// Whether the workers of a process exchange bytes rather than typed values.
    pub serializing: bool,
    /// The transport between processes.
    pub transport: ClusterTransport,
}

/// Whether the configuration can be built.
pub open spec fn supported(config: Config, features: Features) -> bool {
    match config {
        Config::Cluster { intra_host_zero_copy, transport, .. } => transport.built(features) && !(
        transport is TCP && intra_host_zero_copy),
        _ => true,
    }
}

/// The communication infrastructure that a supported configuration asks for.
pub open spec fn infrastructure(config: Config) -> Build {
    match config {
        Config::Thread => Build::Thread,
        Config::Process(threads) => Build::Process(threads),
        Config::ProcessBinary(threads) => Build::ProcessBinary(threads),
        Config::Cluster {
            threads,
            process,
            addresses,
            report,
            intra_process_zero_copy,
            intra_host_zero_copy,
            transport,
        } => Build::Cluster(
            ClusterBuild {
                addresses,
                process,
                threads,
                ipc: intra_host_zero_copy,
                noisy: report,
                serializing: intra_process_zero_copy,
                transport,
            },
        ),
    }
}

impl Config {
    /// Attempts to plan the described communication infrastructure.
    ///
    /// A transport that has not been built is not supported, and neither is TCP together with
    /// zero-copy communication between the processes of a host.
    pub fn plan(self, features: Features) -> (build: Result<Build, String>)
        ensures
            if supported(self, features) {
                build == Ok::<Build, String>(infrastructure(self))
            } else {
                build matches Err(message) && message@ == "unsupported cluster configuration"@
            },
            match self {
                Config::Thread => build == Ok::<Build, String>(Build::Thread),
                Config::Process(n) => build == Ok::<Build, String>(Build::Process(n)),
                Config::ProcessBinary(n) => build == Ok::<Build, String>(Build::ProcessBinary(n)),
                Config::Cluster {
                    threads,
                    process,
                    addresses,
                    report,
                    intra_process_zero_copy,
                    intra_host_zero_copy,
                    transport,
                } => {
                    let built = match transport {
                        ClusterTransport::TCP => features.tcp && !intra_host_zero_copy,
                        ClusterTransport::TLS => features.tls,
                        ClusterTransport::QUIC => features.quic,
                    };
                    &&& built <==> build is Ok
                    &&& build matches Ok(build) ==> {
                        &&& build matches Build::Cluster(cluster)
                        &&& cluster.addresses == addresses
                        &&& cluster.process == process
                        &&& cluster.threads == threads
                        &&& cluster.ipc == intra_host_zero_copy
                        &&& cluster.noisy == report
                        &&& cluster.serializing == intra_process_zero_copy
                        &&& cluster.transport == transport
                    }
                },
            },
    {
        match self {
            Config::Thread => Ok(Build::Thread),
            Config::Process(threads) => Ok(Build::Process(threads)),
            Config::ProcessBinary(threads) => Ok(Build::ProcessBinary(threads)),
            Config::Cluster {
                threads,
                process,
                addresses,
                report,
                intra_process_zero_copy,
                intra_host_zero_copy,
                transport,
            } => {
                if !transport.is_built(features) || (transport == ClusterTransport::TCP
                    && intra_host_zero_copy) {
                    return Err("unsupported cluster configuration".to_owned());
                }
                Ok(
                    Build::Cluster(
                        ClusterBuild {
                            addresses,
                            process,
                            threads,
                            ipc: intra_host_zero_copy,
                            noisy: report,
                            serializing: intra_process_zero_copy,
                            transport,
                        },
                    ),
                )
            },
        }
    }
}

/// What a configuration is built from: the builders of its workers where they are in one process,
/// or what the processes of a cluster are connected with, and the memory for it.
pub enum Assembly<T, P, PB, Z, ZB, R> {
    /// The builders of all workers, in the order of the workers.
    Workers(Vec<GenericBuilder<T, P, PB, Z, ZB>>),
    /// The workers of this process are still to be connected to those of other processes.
    Cluster(ClusterBuild, R),
}

/// The number of workers of a configuration of one process.
pub open spec fn workers_of(build: Build) -> usize {
    match build {
        Build::Process(threads) => threads,
        Build::ProcessBinary(threads) => threads,
        _ => 1,
    }
}

/// Which allocators the workers of a configuration of one process have.
pub open spec fn kind_of(build: Build) -> AllocatorKind {
    match build {
        Build::Process(_) => AllocatorKind::IntraProcess,
        Build::ProcessBinary(_) => AllocatorKind::IntraProcessBinary,
        _ => AllocatorKind::IntraThread,
    }
}

/// Whether `builders` are those of the workers of a configuration of one process: one for each
/// worker, in the order of the workers, and each for the allocator that is asked for.
pub open spec fn are_workers_of<
    T: AllocatorBuilder,
    P: AllocatorBuilder,
    PB: AllocatorBuilder,
    Z: AllocatorBuilder,
    ZB: AllocatorBuilder,
>(builders: Seq<GenericBuilder<T, P, PB, Z, ZB>>, build: Build) -> bool {
    &&& builders.len() == workers_of(build)
    &&& in_order(builders, 0, workers_of(build) as int)
    &&& forall|k: int| 0 <= k < builders.len() ==> (#[trigger] builders[k]).kind() == kind_of(build)
}

impl Config {
    /// Attempts to assemble the described communication infrastructure, using the supplied memory.
    pub fn try_build_with<
        R,
        T: PeerBuilder<R>,
        P: PeerBuilder<R>,
        PB: PeerBuilder<R>,
        Z: AllocatorBuilder,
        ZB: AllocatorBuilder,
    >(self, features: Features, refill: R) -> (assembly: Result<
        Assembly<T::Peer, P::Peer, PB::Peer, Z, ZB, R>,
        String,
    >)
        ensures
            if supported(self, features) {
                match infrastructure(self) {
                    Build::Cluster(build) => assembly == Ok::<
                        Assembly<T::Peer, P::Peer, PB::Peer, Z, ZB, R>,
                        String,
                    >(Assembly::Cluster(build, refill)),
                    build => assembly matches Ok(Assembly::Workers(builders)) && are_workers_of(
                        builders@,
                        build,
                    ),
                }
            } else {
                assembly matches Err(message) && message@ == "unsupported cluster configuration"@
            },
    {
        let build = match self.plan(features) {
            Ok(build) => build,
            Err(message) => return Err(message),
        };
        match build {
            Build::Thread => {
                let peers = T::new_vector(1, refill);
                proof {
                    law_wrapping_keeps_workers::<T::Peer, P::Peer, PB::Peer, Z, ZB>(
                        peers@,
                        Seq::empty(),
                        Seq::empty(),
                        Seq::empty(),
                        Seq::empty(),
                        0,
                        1,
                    );
                }
                Ok(Assembly::Workers(GenericBuilder::intra_thread(peers)))
            },
            Build::Process(threads) => {
                let peers = P::new_vector(threads, refill);
                proof {
                    law_wrapping_keeps_workers::<T::Peer, P::Peer, PB::Peer, Z, ZB>(
                        Seq::empty(),
                        peers@,
                        Seq::empty(),
                        Seq::empty(),
                        Seq::empty(),
                        0,
                        threads as int,
                    );
                }
                Ok(Assembly::Workers(GenericBuilder::intra_process(peers)))
            },
            Build::ProcessBinary(threads) => {
                let peers = PB::new_vector(threads, refill);
                proof {
                    law_wrapping_keeps_workers::<T::Peer, P::Peer, PB::Peer, Z, ZB>(
                        Seq::empty(),
                        Seq::empty(),
                        peers@,
                        Seq::empty(),
                        Seq::empty(),
                        0,
                        threads as int,
                    );
                }
                Ok(Assembly::Workers(GenericBuilder::intra_process_serializing(peers)))
            },
            Build::Cluster(build) => Ok(Assembly::Cluster(build, refill)),
        }
    }
}

/// The allocators of the workers of one configuration of one process know as many peers as there are
/// threads, their indices are the numbers below this number, each exactly once, and each is of the
/// kind that is asked for. A configuration of one thread has one, with index zero and one peer.
pub proof fn law_workers_of_a_configuration<
    T: AllocatorBuilder,
    P: AllocatorBuilder,
    PB: AllocatorBuilder,
    Z: AllocatorBuilder,
    ZB: AllocatorBuilder,
>(
    config: Config,
    builders: Seq<GenericBuilder<T, P, PB, Z, ZB>>,
    allocators: Seq<
        GenericAllocator<T::Allocator, P::Allocator, PB::Allocator, Z::Allocator, ZB::Allocator>,
    >,
)
    requires
        config !is Cluster,
        are_workers_of(builders, infrastructure(config)),
        built(builders, allocators),
    ensures
        allocators.len() == (match config {
            Config::Process(threads) => threads,
            Config::ProcessBinary(threads) => threads,
            _ => 1,
        }),
        forall|k: int|
            0 <= k < allocators.len() ==> {
                &&& (#[trigger] allocators[k]).workers() == allocators.len()
                &&& allocators[k].worker() == k
                &&& allocators[k].kind() == kind_of(infrastructure(config))
                &&& config is Thread ==> allocators[k] is IntraThread
                &&& config is Process ==> allocators[k] is IntraProcess
                &&& config is ProcessBinary ==> allocators[k] is IntraProcessBinary
            },
{
    law_workers_of_a_process(builders, allocators);
    assert forall|k: int| 0 <= k < allocators.len() implies (#[trigger] allocators[k]).kind()
        == kind_of(infrastructure(config)) by {
        law_building_keeps_kind(builders[k], allocators[k]);
        assert(builders[k].kind() == kind_of(infrastructure(config)));
    }
}

/// What is said where the processes of a cluster could not be connected.
pub fn networking_failure(cause: &str) -> (message: String)
    ensures
        message@ == "failed to initialize networking: "@ + cause@,
{
    "failed to initialize networking: ".to_owned().concat(cause)
}

/// The text that `std` writes for a string so that it can be told from other values: quoted and
/// escaped.
pub uninterp spec fn debug_quoted(text: Seq<char>) -> Seq<char>;

/// Calls `<str as std::fmt::Debug>::fmt` through `format`. What it writes depends on the text
/// alone.
#[verifier::external_body]
fn quoted(text: &str) -> (quoted: String)
    ensures
        quoted@ == debug_quoted(text@),
{
    format!("{:?}", text)
}

/// The texts, with a comma and a space between any two.
pub open spec fn comma_separated(parts: Seq<Seq<char>>) -> Seq<char>
    decreases parts.len(),
{
    if parts.len() == 0 {
        Seq::empty()
    } else if parts.len() == 1 {
        parts[0]
    } else {
        comma_separated(parts.drop_last()) + ", "@ + parts.last()
    }
}

/// The word for a truth value.
pub open spec fn truth(value: bool) -> Seq<char> {
    if value {
        "true"@
    } else {
        "false"@
    }
}

/// The text of a configuration of several processes whose addresses have been quoted.
pub open spec fn cluster_description(
    threads: usize,
    process: usize,
    quoted: Seq<Seq<char>>,
    report: bool,
    zerocopy: bool,
) -> Seq<char> {
    "Config::Cluster { threads: "@ + decimal(threads as nat) + ", process: "@ + decimal(
        process as nat,
    ) + ", addresses: ["@ + comma_separated(quoted) + "], report: "@ + truth(report)
        + ", zerocopy: "@ + truth(zerocopy) + ", .. }"@
}

/// The text of a configuration.
pub open spec fn description(config: ConfigView) -> Seq<char> {
    match config {
        ConfigView::Thread => "Config::Thread()"@,
        ConfigView::Process(n) => "Config::Process("@ + decimal(n as nat) + ")"@,
        ConfigView::ProcessBinary(n) => "Config::ProcessBinary("@ + decimal(n as nat) + ")"@,
        ConfigView::Cluster {
            threads,
            process,
            addresses,
            report,
            intra_process_zero_copy,
            ..
        } => cluster_description(
            threads,
            process,
            Seq::new(addresses.len(), |i: int| debug_quoted(addresses[i])),
            report,
            intra_process_zero_copy,
        ),
    }
}

/// The word for a truth value.
fn truth_text(value: bool) -> (text: &'static str)
    ensures
        text@ == truth(value),
{
    if value {
        "true"
    } else {
        "false"
    }
}

/// The texts, with a comma and a space between any two.
fn join_with_commas(parts: &Vec<String>) -> (text: String)
    ensures
        text@ == comma_separated(texts(parts@)),
{
    let mut text: String = "".to_owned();
    proof {
        reveal_strlit("");
        assert(texts(parts@).take(0) =~= Seq::empty());
        assert(text@ =~= Seq::empty());
    }
    let mut i: usize = 0;
    while i < parts.len()
        invariant
            i <= parts@.len(),
            text@ == comma_separated(texts(parts@).take(i as int)),
        decreases parts@.len() - i,
    {
        let ghost next = texts(parts@).take(i + 1);
        proof {
            assert(next.drop_last() =~= texts(parts@).take(i as int));
            assert(next.last() == parts@[i as int]@);
        }
        if i > 0 {
            text.append(", ");
        }
        text.append(parts[i].as_str());
        proof {
            if i == 0 {
                assert(text@ =~= parts@[0]@);
            }
            assert(text@ == comma_separated(next));
        }
        i = i + 1;
    }
    assert(texts(parts@).take(i as int) =~= texts(parts@));
    text
}

/// The text of a configuration of several processes whose addresses have been quoted.
pub fn cluster_text(
    threads: usize,
    process: usize,
    quoted: &Vec<String>,
    report: bool,
    zerocopy: bool,
) -> (text: String)
    ensures
        text@ == cluster_description(threads, process, texts(quoted@), report, zerocopy),
{
    numbered("Config::Cluster { threads: ", threads as u128).concat(", process: ").concat(
        decimal_text(process as u128).as_str(),
    ).concat(", addresses: [").concat(join_with_commas(quoted).as_str()).concat(
        "], report: ",
    ).concat(truth_text(report)).concat(", zerocopy: ").concat(truth_text(zerocopy)).concat(
        ", .. }",
    )
}

impl Config {
    /// The text of the configuration, on one line.
    pub fn debug_text(&self) -> (text: String)
        ensures
            text@ == description(self@),
    {
        match self {
            Config::Thread => "Config::Thread()".to_owned(),
            Config::Process(n) => numbered("Config::Process(", *n as u128).concat(")"),
            Config::ProcessBinary(n) => numbered("Config::ProcessBinary(", *n as u128).concat(")"),
            Config::Cluster {
                threads,
                process,
                addresses,
                report,
                intra_process_zero_copy,
                ..
            } => {
                let mut all: Vec<String> = Vec::new();
                let mut i: usize = 0;
                while i < addresses.len()
                    invariant
                        i <= addresses@.len(),
                        all@.len() == i,
                        forall|k: int|
                            0 <= k < i ==> (#[trigger] all@[k])@ == debug_quoted(addresses@[k]@),
                    decreases addresses@.len() - i,
                {
                    all.push(quoted(addresses[i].as_str()));
                    i = i + 1;
                }
                assert(texts(all@) =~= Seq::new(
                    texts(addresses@).len(),
                    |k: int| debug_quoted(texts(addresses@)[k]),
                ));
                cluster_text(*threads, *process, &all, *report, *intra_process_zero_copy)
            },
        }
    }
}

/// A file is asked for, or several processes are configured, where more than one is asked for;
/// then there is an address for each. Otherwise more than one thread makes a process, with
/// zero-copy channels where these are asked for, and at most one thread makes a thread.
pub proof fn law_configuration_shape(answers: AnswersView, features: Features)
    requires
        configuration(answers, features) is Ok,
    ensures
        ({
            let threads = answers.threads->Ok_0;
            let processes = answers.processes->Ok_0;
            match configuration(answers, features)->Ok_0 {
                ParsedView::Ready(ConfigView::Cluster { addresses, .. }) => processes > 1
                    && answers.hostfile is None && addresses.len() == processes,
                ParsedView::NeedsHosts(pending) => processes > 1 && answers.hostfile == Some(
                    pending.hostfile,
                ) && pending.processes == processes,
                ParsedView::Ready(ConfigView::Process(n)) => processes <= 1 && threads > 1 && n
                    == threads && !answers.zerocopy,
                ParsedView::Ready(ConfigView::ProcessBinary(n)) => processes <= 1 && threads > 1
                    && n == threads && answers.zerocopy,
                ParsedView::Ready(ConfigView::Thread) => processes <= 1 && threads <= 1,
            }
        }),
{
}

/// Different processes have different addresses where no file lists them.
pub proof fn law_default_addresses_differ(i: nat, j: nat)
    requires
        i != j,
    ensures
        default_address(i as int) != default_address(j as int),
{
    if default_address(i as int) == default_address(j as int) {
        law_numbered_injective("localhost:"@, 2101 + i, 2101 + j);
    }
}

/// Where no option is given, one thread is used.
pub proof fn law_no_options_use_one_thread(
    given: Map<Seq<char>, Seq<Option<Seq<char>>>>,
    features: Features,
)
    requires
        can_be_asked(given, features),
        forall|name: Seq<char>| #[trigger]
            given.dom().contains(name) ==> given[name].len() == 0,
    ensures
        configuration(answers_of(given, features), features) == Ok::<ParsedView, Seq<char>>(
            ParsedView::Ready(ConfigView::Thread),
        ),
{
    assert(given.dom().contains("w"@));
    assert(given.dom().contains("n"@));
    assert(given.dom().contains("p"@));
    assert(given.dom().contains("transport"@));
}

/// What a configuration that is read from a command line asks for can be built, unless it asks
/// for a transport that has not been built, or for TCP together with shared memory.
pub proof fn law_ready_configurations_are_supported(
    config: Config,
    answers: AnswersView,
    features: Features,
)
    requires
        configuration(answers, features) == Ok::<ParsedView, Seq<char>>(ParsedView::Ready(config@)),
        features.tcp,
        !answers.sharedmemory || answers.transport is Some && transport_named(
            answers.transport->0,
            features,
        ) != Some(ClusterTransport::TCP),
    ensures
        supported(config, features),
{
    if let Some(text) = answers.transport {
        if let Some(transport) = transport_named(text, features) {
            law_named_transports_are_built(text, transport, features);
        }
    }
}

/// The configuration that the answers of a command line describe is told by the answers alone. The
/// first number that is wrong is told, then a transport that cannot be had. Otherwise more than one
/// process is a cluster, with the threads, the index, the transport and the settings that are asked
/// for, be its addresses the default ones or those of a file; and one process has the threads that
/// are asked for, which exchange bytes where zero copy between threads is asked for.
pub proof fn law_answers_decide(
    answers: Answers,
    features: Features,
    result: Result<Parsed, String>,
)
    requires
        agrees(result, configuration(answers@, features)),
    ensures
        match (answers.threads, answers.process, answers.processes) {
            (Err(wrong), _, _) => result matches Err(message) && message@ == wrong@,
            (Ok(_), Err(wrong), _) => result matches Err(message) && message@ == wrong@,
            (Ok(_), Ok(_), Err(wrong)) => result matches Err(message) && message@ == wrong@,
            (Ok(threads), Ok(process), Ok(processes)) => {
                let asked = match answers.transport {
                    Some(text) => transport_named(text@, features),
                    None => Some(ClusterTransport::TCP),
                };
                if asked is None {
                    result matches Err(message) && message@
                        == "Unknown cluster transport identifier"@
                } else if processes > 1 && answers.hostfile is Some {
                    &&& result matches Ok(Parsed::NeedsHosts(pending))
                    &&& pending.hostfile@ == answers.hostfile->0@
                    &&& pending.processes == processes
                    &&& pending.threads == threads
                    &&& pending.process == process
                    &&& pending.report == answers.report
                    &&& pending.intra_process_zero_copy == answers.zerocopy
                    &&& pending.intra_host_zero_copy == answers.sharedmemory
                    &&& Some(pending.transport) == asked
                } else if processes > 1 {
                    &&& result matches Ok(Parsed::Ready(config))
                    &&& config matches Config::Cluster {
                        threads: its_threads,
                        process: its_process,
                        addresses,
                        report,
                        intra_process_zero_copy,
                        intra_host_zero_copy,
                        transport,
                    }
                    &&& its_threads == threads
                    &&& its_process == process
                    &&& addresses@.len() == processes
                    &&& forall|i: int|
                        0 <= i < processes ==> (#[trigger] addresses@[i])@ == "localhost:"@
                            + decimal((2101 + i) as nat)
                    &&& report == answers.report
                    &&& intra_process_zero_copy == answers.zerocopy
                    &&& intra_host_zero_copy == answers.sharedmemory
                    &&& Some(transport) == asked
                } else if threads > 1 && answers.zerocopy {
                    result == Ok::<Parsed, String>(Parsed::Ready(Config::ProcessBinary(threads)))
                } else if threads > 1 {
                    result == Ok::<Parsed, String>(Parsed::Ready(Config::Process(threads)))
                } else {
                    result == Ok::<Parsed, String>(Parsed::Ready(Config::Thread))
                }
            },
        },
{
    if let Ok(Parsed::Ready(Config::Cluster { addresses, .. })) = result {
        assert(texts(addresses@).len() == addresses@.len());
        assert forall|i: int| 0 <= i < addresses@.len() implies (#[trigger] addresses@[i])@
            == "localhost:"@ + decimal((2101 + i) as nat) by {
            assert(texts(addresses@)[i] == default_address(i));
        }
    }
}

/// A file changes the addresses of a configuration of several processes and nothing else: all other
/// settings are those that the same command line gives without the file.
pub proof fn law_hostfile_changes_addresses_alone(
    with_file: Answers,
    without: Answers,
    features: Features,
    pending: PendingCluster,
    config: Config,
)
    requires
        without@ == (AnswersView { hostfile: None, ..with_file@ }),
        agrees(Ok(Parsed::NeedsHosts(pending)), configuration(with_file@, features)),
        agrees(Ok(Parsed::Ready(config)), configuration(without@, features)),
    ensures
        config matches Config::Cluster {
            threads,
            process,
            addresses,
            report,
            intra_process_zero_copy,
            intra_host_zero_copy,
            transport,
        } && {
            &&& threads == pending.threads
            &&& process == pending.process
            &&& addresses@.len() == pending.processes
            &&& report == pending.report
            &&& intra_process_zero_copy == pending.intra_process_zero_copy
            &&& intra_host_zero_copy == pending.intra_host_zero_copy
            &&& transport == pending.transport
        },
{
    if let Config::Cluster { addresses, .. } = config {
        assert(texts(addresses@).len() == addresses@.len());
    }
}

/// A configuration, the settings of one whose addresses are still to be read, and what a command line
/// says are shown with all that they hold, each under its own name.
pub proof fn law_views_show_all(config: Config, pending: PendingCluster, answers: Answers)
    ensures
        match (config, config@) {
            (Config::Thread, ConfigView::Thread) => true,
            (Config::Process(a), ConfigView::Process(b)) => a == b,
            (Config::ProcessBinary(a), ConfigView::ProcessBinary(b)) => a == b,
            (
                Config::Cluster {
                    threads,
                    process,
                    addresses,
                    report,
                    intra_process_zero_copy,
                    intra_host_zero_copy,
                    transport,
                },
                ConfigView::Cluster {
                    threads: threads_shown,
                    process: process_shown,
                    addresses: addresses_shown,
                    report: report_shown,
                    intra_process_zero_copy: intra_process_shown,
                    intra_host_zero_copy: intra_host_shown,
                    transport: transport_shown,
                },
            ) => {
                &&& threads_shown == threads
                &&& process_shown == process
                &&& addresses_shown == addresses@.map_values(|address: String| address@)
                &&& report_shown == report
                &&& intra_process_shown == intra_process_zero_copy
                &&& intra_host_shown == intra_host_zero_copy
                &&& transport_shown == transport
            },
            _ => false,
        },
        pending@.hostfile == pending.hostfile@,
        pending@.processes == pending.processes,
        pending@.threads == pending.threads,
        pending@.process == pending.process,
        pending@.report == pending.report,
        pending@.intra_process_zero_copy == pending.intra_process_zero_copy,
        pending@.intra_host_zero_copy == pending.intra_host_zero_copy,
        pending@.transport == pending.transport,
        answers@.report == answers.report,
        answers@.zerocopy == answers.zerocopy,
        answers@.sharedmemory == answers.sharedmemory,
        answers.threads is Ok ==> answers@.threads == Ok::<usize, Seq<char>>(answers.threads->Ok_0),
        answers.process is Ok ==> answers@.process == Ok::<usize, Seq<char>>(answers.process->Ok_0),
        answers.processes is Ok ==> answers@.processes == Ok::<usize, Seq<char>>(
            answers.processes->Ok_0,
        ),
        answers.threads is Err ==> answers@.threads == Err::<usize, Seq<char>>(
            answers.threads->Err_0@,
        ),
        answers.process is Err ==> answers@.process == Err::<usize, Seq<char>>(
            answers.process->Err_0@,
        ),
        answers.processes is Err ==> answers@.processes == Err::<usize, Seq<char>>(
            answers.processes->Err_0@,
        ),
        answers.transport is None <==> answers@.transport is None,
        answers.transport is Some ==> answers@.transport == Some(answers.transport->0@),
        answers.hostfile is None <==> answers@.hostfile is None,
        answers.hostfile is Some ==> answers@.hostfile == Some(answers.hostfile->0@),
{
    if let Config::Cluster { addresses, .. } = config {
        assert(texts(addresses@) =~= addresses@.map_values(|address: String| address@));
    }
}

/// A configuration of several processes can be built where its transport has been built, unless it is
/// TCP and memory is to be shared between processes; any other can be built. What is built for several
/// processes shares memory between the processes of a host exactly if zero copy between processes is
/// asked for, and exchanges bytes between the workers of a process exactly if zero copy between threads
/// is asked for; all other settings are kept.
pub proof fn law_infrastructure_keeps_settings(config: Config, features: Features)
    ensures
        match config {
            Config::Thread => supported(config, features) && infrastructure(config)
                == Build::Thread,
            Config::Process(n) => supported(config, features) && infrastructure(config)
                == Build::Process(n),
            Config::ProcessBinary(n) => supported(config, features) && infrastructure(config)
                == Build::ProcessBinary(n),
            Config::Cluster {
                threads,
                process,
                addresses,
                report,
                intra_process_zero_copy,
                intra_host_zero_copy,
                transport,
            } => {
                &&& supported(config, features) <==> match transport {
                    ClusterTransport::TCP => features.tcp && !intra_host_zero_copy,
                    ClusterTransport::TLS => features.tls,
                    ClusterTransport::QUIC => features.quic,
                }
                &&& infrastructure(config) matches Build::Cluster(build)
                &&& build.ipc == intra_host_zero_copy
                &&& build.serializing == intra_process_zero_copy
                &&& build.noisy == report
                &&& build.threads == threads
                &&& build.process == process
                &&& build.addresses == addresses
                &&& build.transport == transport
            },
        },
{
}

/// From a command line to what is built: the processes of a host share memory exactly if `-s` is given,
/// the workers of a process exchange bytes exactly if `-z` is given, and progress is reported exactly
/// if `-r` is given.
pub proof fn law_flags_reach_infrastructure(
    given: Map<Seq<char>, Seq<Option<Seq<char>>>>,
    features: Features,
    config: Config,
    build: ClusterBuild,
)
    requires
        agrees(Ok(Parsed::Ready(config)), configuration(answers_of(given, features), features)),
        infrastructure(config) == Build::Cluster(build),
    ensures
        build.ipc <==> features.shared_memory && given["sharedmemory"@].len() > 0,
        build.serializing <==> given["zerocopy"@].len() > 0,
        build.noisy <==> given["report"@].len() > 0,
        number_of(given, "w"@, 1) == Ok::<usize, Seq<char>>(build.threads),
        number_of(given, "p"@, 0) == Ok::<usize, Seq<char>>(build.process),
        number_of(given, "n"@, 1) == Ok::<usize, Seq<char>>(build.addresses@.len() as usize),
{
    assert(texts(build.addresses@).len() == build.addresses@.len());
}

/// What the options say: one thread and one process, with index zero, where nothing else is given, and
/// each flag and each text under its own name.
pub proof fn law_options_answer(
    given: Map<Seq<char>, Seq<Option<Seq<char>>>>,
    features: Features,
)
    ensures
        answers_of(given, features).threads == number_of(given, "w"@, 1),
        answers_of(given, features).process == number_of(given, "p"@, 0),
        answers_of(given, features).processes == number_of(given, "n"@, 1),
        answers_of(given, features).report <==> given["report"@].len() > 0,
        answers_of(given, features).zerocopy <==> given["zerocopy"@].len() > 0,
        answers_of(given, features).sharedmemory <==> features.shared_memory
            && given["sharedmemory"@].len() > 0,
        answers_of(given, features).transport == first_value(given, "transport"@),
        answers_of(given, features).hostfile == first_value(given, "h"@),
        can_be_asked(given, features) <==> {
            &&& given.dom().contains("w"@)
            &&& given.dom().contains("p"@)
            &&& given.dom().contains("n"@)
            &&& given.dom().contains("h"@)
            &&& given.dom().contains("transport"@)
            &&& given.dom().contains("report"@)
            &&& given.dom().contains("zerocopy"@)
            &&& features.shared_memory ==> given.dom().contains("sharedmemory"@)
        },
{
}

/// The options have these names, of which each short one stands for the long one beside it, and these
/// descriptions. The first five have an argument and the others have none, and each may be given once.
pub proof fn law_option_names(features: Features)
    ensures
        ({
            let options = timely_options(features);
            &&& options.len() == (if features.shared_memory {
                8int
            } else {
                7int
            })
            &&& options[0] == (
                "w"@,
                "threads"@,
                "number of per-process worker threads"@,
                "NUM"@,
                1int,
                1int,
            )
            &&& options[1] == (
                "p"@,
                "process"@,
                "identity of this process"@,
                "IDX"@,
                1int,
                1int,
            )
            &&& options[2] == (
                "n"@,
                "processes"@,
                "number of processes"@,
                "NUM"@,
                1int,
                1int,
            )
            &&& options[3] == (
                "h"@,
                "hostfile"@,
                "text file whose lines are process addresses"@,
                "FILE"@,
                1int,
                1int,
            )
            &&& options[4] == (
                "t"@,
                "transport"@,
                "cluster transport"@,
                "tcp|tls|quic"@,
                1int,
                1int,
            )
            &&& options[5] == (
                "r"@,
                "report"@,
                "reports connection progress"@,
                Seq::<char>::empty(),
                0int,
                1int,
            )
            &&& options[6] == (
                "z"@,
                "zerocopy"@,
                "enable zero-copy for intra-process communication"@,
                Seq::<char>::empty(),
                0int,
                1int,
            )
            &&& features.shared_memory ==> options[7] == (
                "s"@,
                "sharedmemory"@,
                "enable zero-copy for intra-host communication using shared memory"@,
                Seq::<char>::empty(),
                0int,
                1int,
            )
        }),
{
}

/// The texts are joined with a comma and a space between any two of them, and with nothing else.
pub proof fn law_comma_separated(parts: Seq<Seq<char>>, part: Seq<char>)
    ensures
        comma_separated(Seq::empty()) == Seq::<char>::empty(),
        comma_separated(seq![part]) == part,
        parts.len() > 0 ==> comma_separated(parts.push(part)) == comma_separated(parts) + ", "@
            + part,
{
    assert(parts.push(part).drop_last() =~= parts);
}

/// The words that describe a configuration.
pub proof fn law_description_words(config: Config)
    ensures
        match config {
            Config::Thread => description(config@) == "Config::Thread()"@,
            Config::Process(n) => description(config@) == "Config::Process("@ + decimal(n as nat)
                + ")"@,
            Config::ProcessBinary(n) => description(config@) == "Config::ProcessBinary("@ + decimal(
                n as nat,
            ) + ")"@,
            Config::Cluster {
                threads,
                process,
                addresses,
                report,
                intra_process_zero_copy,
                ..
            } => description(config@) == "Config::Cluster { threads: "@ + decimal(threads as nat)
                + ", process: "@ + decimal(process as nat) + ", addresses: ["@ + comma_separated(
                addresses@.map_values(|address: String| debug_quoted(address@)),
            ) + "], report: "@ + (if report {
                "true"@
            } else {
                "false"@
            }) + ", zerocopy: "@ + (if intra_process_zero_copy {
                "true"@
            } else {
                "false"@
            }) + ", .. }"@,
        },
{
    if let Config::Cluster { addresses, .. } = config {
        assert(Seq::new(texts(addresses@).len(), |i: int| debug_quoted(texts(addresses@)[i]))
            =~= addresses@.map_values(|address: String| debug_quoted(address@)));
    }
}

} // verus!
