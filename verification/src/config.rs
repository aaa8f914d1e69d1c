//! How each role of the cluster is set up.

use vstd::prelude::*;

use crate::id::NodeId;

verus! {

/// The setup of one process.
#[derive(Debug)]
pub enum Config {
    Meta(MetaConfig),
    Store(StoreConfig),
    Client(ClientConfig),
}

/// The setup of the metadata server.
#[derive(Debug)]
pub struct MetaConfig {
    pub node_id: NodeId,
    pub listen: String,
    pub cluster_token: String,
    pub replication_factor: usize,
    pub block_size: usize,
    pub heartbeat_timeout_ms: u64,
    pub max_open_handles: u64,
    pub gc_interval_ms: Option<u64>,
    pub debug_http_listen: Option<String>,
}

/// The setup of a storage node.
#[derive(Debug)]
pub struct StoreConfig {
    pub node_id: NodeId,
    pub listen: String,
    pub advertise_addr: String,
    pub meta_addr: String,
    pub cluster_token: String,
    pub ram_budget_bytes: u64,
    pub debug_http_listen: Option<String>,
}

/// The setup of a mount.
#[derive(Debug)]
pub struct ClientConfig {
    pub node_id: NodeId,
    pub mount_point: String,
    pub meta_addr: String,
    pub cluster_token: String,
    pub block_size: usize,
    pub replication_factor: usize,
    pub attr_cache_ttl_ms: u64,
    pub block_cache_capacity_mb: u64,
    pub fuse_threads: usize,
    pub tokio_worker_threads: Option<u32>,
    pub keepalive_interval_secs: u64,
    pub rpc_timeout_ms: u64,
    pub write_rpc_timeout_ms: u64,
    pub mount_options: ClientMountOptions,
}

/// The options of a mount. All are on, but for those that are switched off.
#[derive(Copy, Clone, Debug, PartialEq, Eq, Structural)]
pub struct ClientMountOptions {
    pub allow_other: bool,
    pub default_permissions: bool,
    pub auto_unmount: bool,
    pub no_atime: bool,
}

impl Default for ClientMountOptions {
    fn default() -> (r: Self)
        ensures
            r == (ClientMountOptions {
                allow_other: true,
                default_permissions: true,
                auto_unmount: true,
                no_atime: true,
            }),
    {
        ClientMountOptions {
            allow_other: true,
            default_permissions: true,
            auto_unmount: true,
            no_atime: true,
        }
    }
}

pub fn d_replication() -> (r: usize)
    ensures
        r == 1,
{
    1
}

pub fn d_block_size() -> (r: usize)
    ensures
        r == 0x10_0000,
{
    0x10_0000
}

pub fn d_heartbeat_timeout_ms() -> (r: u64)
    ensures
        r == 5000,
{
    5000
}

pub fn d_attr_ttl_ms() -> (r: u64)
    ensures
        r == 1000,
{
    1000
}

pub fn d_block_cache_mb() -> (r: u64)
    ensures
        r == 1024,
{
    1024
}

pub fn d_fuse_threads() -> (r: usize)
    ensures
        r == 4,
{
    4
}

pub fn d_max_open_handles() -> (r: u64)
    ensures
        r == 100_000,
{
    100_000
}

pub fn d_keepalive_secs() -> (r: u64)
    ensures
        r == 30,
{
    30
}

pub fn d_rpc_timeout_ms() -> (r: u64)
    ensures
        r == 5000,
{
    5000
}

pub fn d_write_rpc_timeout_ms() -> (r: u64)
    ensures
        r == 30_000,
{
    30_000
}

pub fn d_true() -> (r: bool)
    ensures
        r,
{
    true
}

/// An option with which a filesystem is mounted.
#[derive(Copy, Clone, Debug, PartialEq, Eq, Structural)]
pub enum MountOption {
    FsName,
    Subtype,
    DefaultPermissions,
    AllowOther,
    AutoUnmount,
    NoAtime,
}

/// The options that a setup asks for, in the order in which they are given.
pub open spec fn asked_options(o: ClientMountOptions) -> Seq<MountOption> {
    let named = seq![MountOption::FsName, MountOption::Subtype];
    let a = if o.default_permissions {
        named.push(MountOption::DefaultPermissions)
    } else {
        named
    };
    let b = if o.allow_other {
        a.push(MountOption::AllowOther)
    } else {
        a
    };
    let c = if o.auto_unmount {
        b.push(MountOption::AutoUnmount)
    } else {
        b
    };
    if o.no_atime {
        c.push(MountOption::NoAtime)
    } else {
        c
    }
}

/// The options with which to mount.
pub fn mount_options(o: &ClientMountOptions) -> (r: Vec<MountOption>)
    ensures
        r@ == asked_options(*o),
{
    let mut opts: Vec<MountOption> = Vec::new();
    opts.push(MountOption::FsName);
    opts.push(MountOption::Subtype);
    assert(opts@ =~= seq![MountOption::FsName, MountOption::Subtype]);
    if o.default_permissions {
        opts.push(MountOption::DefaultPermissions);
    }
    if o.allow_other {
        opts.push(MountOption::AllowOther);
    }
    if o.auto_unmount {
        opts.push(MountOption::AutoUnmount);
    }
    if o.no_atime {
        opts.push(MountOption::NoAtime);
    }
    opts
}

/// How many worker threads to start: those that are asked for, unless none are.
pub fn worker_threads(asked: Option<u32>) -> (r: Option<u32>)
    ensures
        r == match asked {
            Some(n) => if n > 0 {
                Some(n)
            } else {
                None
            },
            None => None,
        },
{
    match asked {
        Some(n) => if n > 0 {
            Some(n)
        } else {
            None
        },
        None => None,
    }
}

/// A mount is asked for with its name and its type, and with an option exactly
/// where the setup switches it on, each once, in a fixed order.
pub proof fn law_options_follow_the_setup(o: ClientMountOptions)
    ensures
        asked_options(o).len() >= 2,
        asked_options(o)[0] == MountOption::FsName,
        asked_options(o)[1] == MountOption::Subtype,
        asked_options(o).contains(MountOption::DefaultPermissions) <==> o.default_permissions,
        asked_options(o).contains(MountOption::AllowOther) <==> o.allow_other,
        asked_options(o).contains(MountOption::AutoUnmount) <==> o.auto_unmount,
        asked_options(o).contains(MountOption::NoAtime) <==> o.no_atime,
        asked_options(o).no_duplicates(),
        o.default_permissions ==> asked_options(o)[2] == MountOption::DefaultPermissions,
        o.no_atime ==> asked_options(o)[asked_options(o).len() - 1] == MountOption::NoAtime,
        o.auto_unmount && !o.no_atime ==> asked_options(o)[asked_options(o).len() - 1]
            == MountOption::AutoUnmount,
        o.auto_unmount && o.no_atime ==> asked_options(o)[asked_options(o).len() - 2]
            == MountOption::AutoUnmount,
{
    let s = asked_options(o);
    let dp: int = if o.default_permissions { 1 } else { 0 };
    let ao: int = if o.allow_other { 1 } else { 0 };
    let au: int = if o.auto_unmount { 1 } else { 0 };
    if o.default_permissions {
        assert(s[2] == MountOption::DefaultPermissions);
    }
    if o.allow_other {
        assert(s[2 + dp] == MountOption::AllowOther);
    }
    if o.auto_unmount {
        assert(s[2 + dp + ao] == MountOption::AutoUnmount);
    }
    if o.no_atime {
        assert(s[2 + dp + ao + au] == MountOption::NoAtime);
    }
}

} // verus!
