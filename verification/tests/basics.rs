use dtmpfs::auth::check_token;
use dtmpfs::config::{
    d_attr_ttl_ms, d_block_cache_mb, d_block_size, d_fuse_threads, d_heartbeat_timeout_ms,
    d_keepalive_secs, d_max_open_handles, d_replication, d_rpc_timeout_ms, d_true,
    d_write_rpc_timeout_ms, mount_options, worker_threads, ClientMountOptions, MountOption,
};
use dtmpfs::error::{Code, DtmpfsError, Status};
use dtmpfs::id::NodeId;
use dtmpfs::time::Timestamp;

#[test]
fn token_must_match() {
    assert!(check_token(Some("secret"), "secret").is_ok());
    let e = check_token(Some("secre"), "secret").unwrap_err();
    assert_eq!(e.code, Code::Unauthenticated);
    assert_eq!(e.message, "invalid cluster token");
    assert!(check_token(Some("Secret"), "secret").is_err());
}

#[test]
fn missing_token_counts_as_empty() {
    assert!(check_token(None, "secret").is_err());
    assert!(check_token(None, "").is_ok());
    assert!(check_token(Some(""), "").is_ok());
}

fn status(code: Code) -> Status {
    Status::new(code, "m")
}

#[test]
fn statuses_become_errors() {
    let none = || None;
    assert_eq!(DtmpfsError::from_status(status(Code::InvalidArgument), none()), DtmpfsError::InvalidArgument);
    assert_eq!(DtmpfsError::from_status(status(Code::OutOfRange), none()), DtmpfsError::InvalidArgument);
    assert_eq!(DtmpfsError::from_status(status(Code::NotFound), none()), DtmpfsError::NotFound);
    assert_eq!(DtmpfsError::from_status(status(Code::AlreadyExists), none()), DtmpfsError::AlreadyExists);
    assert_eq!(DtmpfsError::from_status(status(Code::PermissionDenied), none()), DtmpfsError::PermissionDenied);
    assert_eq!(DtmpfsError::from_status(status(Code::Unauthenticated), none()), DtmpfsError::Unauthenticated);
    assert_eq!(DtmpfsError::from_status(status(Code::ResourceExhausted), none()), DtmpfsError::ResourceExhausted);
    assert_eq!(
        DtmpfsError::from_status(status(Code::FailedPrecondition), none()),
        DtmpfsError::BlockGenerationMismatch
    );
    assert_eq!(DtmpfsError::from_status(status(Code::Unavailable), none()), DtmpfsError::MetaUnavailable);
    let n = NodeId::new("s".to_string());
    assert_eq!(
        DtmpfsError::from_status(status(Code::Unavailable), Some(n.clone())),
        DtmpfsError::StoreUnavailable(n)
    );
    assert_eq!(
        DtmpfsError::from_status(status(Code::Internal), none()),
        DtmpfsError::Rpc(status(Code::Internal))
    );
}

#[test]
fn errors_become_errnos() {
    assert_eq!(i32::from(DtmpfsError::NotFound), libc::ENOENT);
    assert_eq!(i32::from(DtmpfsError::AlreadyExists), libc::EEXIST);
    assert_eq!(i32::from(DtmpfsError::NotADirectory), libc::ENOTDIR);
    assert_eq!(i32::from(DtmpfsError::IsADirectory), libc::EISDIR);
    assert_eq!(i32::from(DtmpfsError::NotEmpty), libc::ENOTEMPTY);
    assert_eq!(i32::from(DtmpfsError::PermissionDenied), libc::EACCES);
    assert_eq!(i32::from(DtmpfsError::Unauthenticated), libc::EACCES);
    assert_eq!(i32::from(DtmpfsError::ResourceExhausted), libc::ENOSPC);
    assert_eq!(i32::from(DtmpfsError::InvalidArgument), libc::EINVAL);
    assert_eq!(i32::from(DtmpfsError::MetaUnavailable), libc::EIO);
    assert_eq!(i32::from(DtmpfsError::StoreUnavailable(NodeId::default())), libc::EIO);
    assert_eq!(i32::from(DtmpfsError::BlockGenerationMismatch), libc::EIO);
    assert_eq!(i32::from(DtmpfsError::Io("x".to_string())), libc::EIO);
    assert_eq!(i32::from(DtmpfsError::Rpc(status(Code::Unknown))), libc::EIO);
}

#[test]
fn times_since_the_epoch() {
    assert_eq!(Timestamp::after_epoch(5, 1_500_000_000), Timestamp { secs: 6, nanos: 500_000_000 });
    assert_eq!(Timestamp { secs: 6, nanos: 7 }.since_epoch(), (6, 7));
    assert_eq!(Timestamp { secs: -1, nanos: 7 }.since_epoch(), (0, 0));
}

#[test]
fn times_have_a_floor() {
    let now = Timestamp { secs: 100, nanos: 5 };
    let late = Timestamp { secs: 90, nanos: 0 };
    let early = Timestamp { secs: 40, nanos: 4 };
    assert_eq!(late.no_earlier_than(now, 60), late);
    assert_eq!(early.no_earlier_than(now, 60), Timestamp { secs: 40, nanos: 5 });
    let edge = Timestamp { secs: 40, nanos: 5 };
    assert_eq!(edge.no_earlier_than(now, 60), edge);
}

#[test]
fn defaults() {
    assert_eq!(d_replication(), 1);
    assert_eq!(d_block_size(), 1 << 20);
    assert_eq!(d_heartbeat_timeout_ms(), 5000);
    assert_eq!(d_attr_ttl_ms(), 1000);
    assert_eq!(d_block_cache_mb(), 1024);
    assert_eq!(d_fuse_threads(), 4);
    assert_eq!(d_max_open_handles(), 100_000);
    assert_eq!(d_keepalive_secs(), 30);
    assert_eq!(d_rpc_timeout_ms(), 5000);
    assert_eq!(d_write_rpc_timeout_ms(), 30_000);
    assert!(d_true());
}

#[test]
fn mount_options_in_order() {
    let none = ClientMountOptions {
        allow_other: false,
        default_permissions: false,
        auto_unmount: false,
        no_atime: false,
    };
    assert_eq!(mount_options(&none), vec![MountOption::FsName, MountOption::Subtype]);
    let others = ClientMountOptions { allow_other: false, ..ClientMountOptions::default() };
    assert!(!mount_options(&others).contains(&MountOption::AllowOther));
    assert_eq!(
        mount_options(&ClientMountOptions::default()),
        vec![
            MountOption::FsName,
            MountOption::Subtype,
            MountOption::DefaultPermissions,
            MountOption::AllowOther,
            MountOption::AutoUnmount,
            MountOption::NoAtime,
        ]
    );
}

#[test]
fn worker_threads_only_where_asked_for() {
    assert_eq!(worker_threads(None), None);
    assert_eq!(worker_threads(Some(0)), None);
    assert_eq!(worker_threads(Some(3)), Some(3));
}
