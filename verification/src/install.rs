//! The settings of the cluster, read from the settings file, and the rules by which a
//! machine finds out which node it is and what a node is asked to run when it is built.
use vstd::prelude::*;
use vstd::string::StringExecFns;

verus! {

/// The settings: data locations and logging, and the machines of the cluster.
#[derive(Debug)]
pub struct Install {
    /// Data.
    pub data: Data,
    pub drive: Drive,
}

/// Where data is kept, and logging.
#[derive(Debug)]
pub struct Data {
    /// Storage paths.
    pub storage: Storage,
    /// Logging.
    pub logs: Logs,
}

/// The machines: the master and the nodes.
#[derive(Debug)]
pub struct Drive {
    /// The master.
    pub master: Local,
    /// The nodes.
    pub slave: Vec<Node>,
}

/// Logging settings.
#[derive(Debug)]
pub struct Logs {
    /// Log path.
    pub path: String,
    /// Log path on the nodes.
    pub node_logs: String,
    /// Whether logging is on.
    pub enabled: bool,
    /// Days after which a log expires.
    pub expiration_day: i64,
}

/// The master's settings.
#[derive(Debug)]
pub struct Local {
    /// Address, `ip:port`.
    pub host: String,
    /// Whether the cluster is on.
    pub cluster_enabled: bool,
    /// Whether nodes are sent the build.
    pub scp_build: bool,
}

/// A node of the cluster and how to reach it by SSH.
#[derive(Debug)]
pub struct Node {
    /// Node name.
    pub node_name: String,
    /// Address, `ip:port`.
    pub host: String,
    /// SSH user.
    pub ssh_user: String,
    /// SSH password.
    pub ssh_password: String,
    /// SSH private key path, if any.
    pub ssh_private_key_path: Option<String>,
}

/// Storage paths.
#[derive(Debug)]
pub struct Storage {
    /// Local data.
    pub local_data: String,
    /// Data on the nodes.
    pub node_data: String,
    /// The service program on the nodes.
    pub node_service_path: String,
}

/// The outcome of looking for this machine among the nodes.
#[derive(Debug)]
pub struct SlaveMatch {
    /// The first node whose address is this machine's, if any.
    pub first: Option<usize>,
    /// The name of the last node whose address is this machine's; empty if none is.
    pub name: String,
}

/// The node at `i` has the address `local`.
pub open spec fn ip_matches(ips: Seq<String>, local: Seq<char>, i: int) -> bool {
    0 <= i < ips.len() && ips[i]@ == local
}

/// Looks for this machine, whose IP address is `local_ip`, among the nodes, whose IP
/// addresses are `slave_ips` (the address of `slaves[i]` is `slave_ips[i]`).
pub fn match_slaves(local_ip: &str, slave_ips: &Vec<String>, slaves: &Vec<Node>) -> (r: SlaveMatch)
    requires
        slave_ips@.len() == slaves@.len(),
    ensures
        r.first is Some <==> exists|i: int| ip_matches(slave_ips@, local_ip@, i),
        r.first is Some ==> ip_matches(slave_ips@, local_ip@, r.first->0 as int) && forall|j: int|
            0 <= j < r.first->0 ==> !ip_matches(slave_ips@, local_ip@, j),
        (exists|i: int| ip_matches(slave_ips@, local_ip@, i)) ==> exists|i: int| {
            &&& ip_matches(slave_ips@, local_ip@, i)
            &&& forall|j: int| i < j < slave_ips@.len() ==> !ip_matches(slave_ips@, local_ip@, j)
            &&& r.name@ == slaves@[i].node_name@
        },
        !(exists|i: int| ip_matches(slave_ips@, local_ip@, i)) ==> r.name@ == Seq::<char>::empty(),
{
    let mut first: Option<usize> = None;
    let mut name = String::new();
    let ghost mut last: int = -1;
    let mut i: usize = 0;
    while i < slave_ips.len()
        invariant
            i <= slave_ips@.len(),
            slave_ips@.len() == slaves@.len(),
            first is Some <==> exists|k: int| 0 <= k < i && ip_matches(slave_ips@, local_ip@, k),
            first is Some ==> ip_matches(slave_ips@, local_ip@, first->0 as int) && first->0 < i
                && forall|j: int| 0 <= j < first->0 ==> !ip_matches(slave_ips@, local_ip@, j),
            -1 <= last < i,
            last == -1 <==> first is None,
            last >= 0 ==> ip_matches(slave_ips@, local_ip@, last) && name@ == slaves@[last].node_name@,
            forall|j: int| last < j < i ==> !ip_matches(slave_ips@, local_ip@, j),
            last == -1 ==> name@ == Seq::<char>::empty(),
        decreases slave_ips@.len() - i,
    {
        if crate::text::str_eq(slave_ips[i].as_str(), local_ip) {
            name = slaves[i].node_name.clone();
            if first.is_none() {
                first = Some(i);
            }
            proof { last = i as int; }
        }
        proof {
            assert(ip_matches(slave_ips@, local_ip@, i as int) ==> last == i);
            if first is Some {
                let w = first->0 as int;
                assert(0 <= w < i + 1 && ip_matches(slave_ips@, local_ip@, w));
            } else {
                assert forall|k: int| 0 <= k < i + 1 implies !ip_matches(slave_ips@, local_ip@, k) by {}
            }
        }
        i = i + 1;
    }
    SlaveMatch { first, name }
}

/// The name of a machine that is none of the nodes: `Master` when its IP address is the
/// master's, `UnableToConfirmNodeName` otherwise.
pub fn fallback_node_name(master_ip: &str, local_ip: &str) -> (r: String)
    ensures
        master_ip@ == local_ip@ ==> r@ == "Master"@,
        master_ip@ != local_ip@ ==> r@ == "UnableToConfirmNodeName"@,
{
    if crate::text::str_eq(master_ip, local_ip) {
        "Master".to_owned()
    } else {
        "UnableToConfirmNodeName".to_owned()
    }
}

/// The commands a node is asked to run when it is built: open up its data directory,
/// start the service from it, and, when nodes are sent the build, list the directory
/// (otherwise the third command is empty).
pub fn node_commands(storage: &Storage, scp_build: bool) -> (r: Vec<String>)
    ensures
        r@.len() == 3,
        r@[0]@ == "chmod -R 777 "@ + storage.node_data@,
        r@[1]@ == "cd "@ + storage.node_data@ + " && "@ + storage.node_service_path@,
        scp_build ==> r@[2]@ == "ls -la "@ + storage.node_data@,
        !scp_build ==> r@[2]@ == Seq::<char>::empty(),
{
    let mut t = String::new();
    if scp_build {
        t = "ls -la ".to_owned().concat(storage.node_data.as_str());
    }
    let chmod = "chmod -R 777 ".to_owned().concat(storage.node_data.as_str());
    let run = "cd ".to_owned().concat(storage.node_data.as_str()).concat(" && ").concat(
        storage.node_service_path.as_str(),
    );
    let mut r: Vec<String> = Vec::new();
    r.push(chmod);
    r.push(run);
    r.push(t);
    r
}

/// What to do with one command's output while building a node.
#[derive(Debug, Clone, Copy, PartialEq, Eq, Structural)]
pub enum NodeStep {
    /// Print the output.
    Show,
    /// Send the service program to the node.
    Upload,
    /// Nothing.
    Skip,
}

/// The step for the output `output` at position `position` of the outputs: outputs after
/// the first are printed; an empty first output means the node lacks the service, which
/// is then sent.
pub fn node_build_step(position: usize, output: &str) -> (r: NodeStep)
    ensures
        position != 0 ==> r == NodeStep::Show,
        position == 0 && output@.len() == 0 ==> r == NodeStep::Upload,
        position == 0 && output@.len() != 0 ==> r == NodeStep::Skip,
{
    if position != 0 {
        NodeStep::Show
    } else if output.is_empty() {
        NodeStep::Upload
    } else {
        NodeStep::Skip
    }
}

} // verus!
