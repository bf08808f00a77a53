//! The names of services and threads, and the words of a panic.

use vstd::prelude::*;
use vstd::string::*;

use crate::text::{decimal, law_numbered_injective, numbered};

verus! {

/// The name of the inbox of the process on this host that listens at `port`.
pub fn ipc_inbox_name(port: u16) -> (name: String)
    ensures
        name@ == "timely/inbox/"@ + decimal(port as nat),
{
    numbered("timely/inbox/", port as u128)
}

/// The name of the bell of the process on this host that listens at `port`.
pub fn ipc_bell_name(port: u16) -> (name: String)
    ensures
        name@ == "timely/bell/"@ + decimal(port as nat),
{
    numbered("timely/bell/", port as u128)
}

/// The name of the assembly of the processes of one instance on this host.
pub fn ipc_assembly_name(name: &str) -> (full: String)
    ensures
        full@ == "timely/assembly-"@ + name@,
{
    "timely/assembly-".to_owned().concat(name)
}

/// The name of the thread that receives from all processes on this host.
pub fn inbox_thread_name() -> (name: String)
    ensures
        name@ == "timely:ipc:recv-inbox"@,
{
    "timely:ipc:recv-inbox".to_owned()
}

/// The name of the thread that sends to process `process` on this host.
pub fn ipc_send_thread_name(process: usize) -> (name: String)
    ensures
        name@ == "timely:ipc:send-"@ + decimal(process as nat),
{
    numbered("timely:ipc:send-", process as u128)
}

/// The name of the thread that sends to process `process` over the network.
pub fn net_send_thread_name(process: usize) -> (name: String)
    ensures
        name@ == "timely:net:send-"@ + decimal(process as nat),
{
    numbered("timely:net:send-", process as u128)
}

/// The name of the thread that receives from process `process` over the network.
pub fn net_recv_thread_name(process: usize) -> (name: String)
    ensures
        name@ == "timely:net:recv-"@ + decimal(process as nat),
{
    numbered("timely:net:recv-", process as u128)
}

/// The name of the thread that sends to process `process` over a socket that was handed in.
pub fn send_thread_name(process: usize) -> (name: String)
    ensures
        name@ == "timely:send-"@ + decimal(process as nat),
{
    numbered("timely:send-", process as u128)
}

/// The name of the thread that receives from process `process` over a socket that was handed in.
pub fn recv_thread_name(process: usize) -> (name: String)
    ensures
        name@ == "timely:recv-"@ + decimal(process as nat),
{
    numbered("timely:recv-", process as u128)
}

/// The name of the thread of worker `index` of this process.
pub fn worker_thread_name(index: usize) -> (name: String)
    ensures
        name@ == "timely:work-"@ + decimal(index as nat),
{
    numbered("timely:work-", index as u128)
}

/// What the message of a panic says when communication has failed.
pub open spec fn communication_error(context: Seq<char>, cause: Seq<char>) -> Seq<char> {
    "timely communication error: "@ + context + ": "@ + cause
}

/// The message of the panic of a thread that cannot communicate.
///
/// NOTE: some downstream crates sniff out "timely communication error:" from
/// the panic message. Avoid removing or rewording this message if possible.
pub fn panic_message(context: &str, cause: &str) -> (message: String)
    ensures
        message@ == communication_error(context@, cause@),
        message@ == "timely communication error: "@ + context@ + ": "@ + cause@,
{
    "timely communication error: ".to_owned().concat(context).concat(": ").concat(cause)
}

/// The message of every such panic can be told by how it begins.
pub proof fn law_panic_message_prefix(context: Seq<char>, cause: Seq<char>)
    ensures
        "timely communication error:"@.is_prefix_of(communication_error(context, cause)),
{
    reveal_strlit("timely communication error: ");
    reveal_strlit("timely communication error:");
    let prefix = "timely communication error:"@;
    assert(communication_error(context, cause).take(prefix.len() as int) =~= prefix);
}

/// The services of processes that listen at different ports have different names, and no inbox is
/// named like a bell.
pub proof fn law_service_names_differ(p: u16, q: u16)
    ensures
        p != q ==> "timely/inbox/"@ + decimal(p as nat) != "timely/inbox/"@ + decimal(q as nat),
        p != q ==> "timely/bell/"@ + decimal(p as nat) != "timely/bell/"@ + decimal(q as nat),
        "timely/inbox/"@ + decimal(p as nat) != "timely/bell/"@ + decimal(q as nat),
{
    if "timely/inbox/"@ + decimal(p as nat) == "timely/inbox/"@ + decimal(q as nat) {
        law_numbered_injective("timely/inbox/"@, p as nat, q as nat);
    }
    if "timely/bell/"@ + decimal(p as nat) == "timely/bell/"@ + decimal(q as nat) {
        law_numbered_injective("timely/bell/"@, p as nat, q as nat);
    }
    reveal_strlit("timely/inbox/");
    reveal_strlit("timely/bell/");
    assert(("timely/inbox/"@ + decimal(p as nat))[7] == 'i');
    assert(("timely/bell/"@ + decimal(q as nat))[7] == 'b');
}

} // verus!
