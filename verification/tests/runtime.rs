//! Tests for the runtime configuration blocks.

use oci_spec::runtime::{
    get_default_mounts, Hook, HookBuilder, Hooks, Mount, Root, Solaris, SolarisAnet,
    SolarisCappedCPU, SolarisCappedMemory,
};

#[test]
fn root_default_asymmetry() {
    // the constructed default names the path and asks for a read-only root
    let root = Root::default();
    assert_eq!(root.path(), "rootfs");
    assert_eq!(root.readonly(), Some(true));
    // but a decoded document with no readonly key yields an unspecified
    // value, never the constructed default
    let decoded = Root::decode("{\"path\":\"rootfs\"}").unwrap();
    assert_eq!(decoded.path(), "rootfs");
    assert_eq!(decoded.readonly(), None);
}

#[test]
fn root_omission() {
    let unspecified = Root {
        path: "rootfs".to_string(),
        readonly: None,
    };
    assert_eq!(unspecified.encode(false), "{\"path\":\"rootfs\"}");
    let writable = Root {
        path: "rootfs".to_string(),
        readonly: Some(false),
    };
    assert_eq!(writable.encode(false), "{\"path\":\"rootfs\",\"readonly\":false}");
}

#[test]
fn root_round_trip() {
    for root in [
        Root::default(),
        Root {
            path: "rootfs".to_string(),
            readonly: None,
        },
        Root {
            path: "some/other".to_string(),
            readonly: Some(false),
        },
    ] {
        let compact = root.encode(false);
        let pretty = root.encode(true);
        assert_eq!(Root::decode(&compact).unwrap(), root);
        assert_eq!(Root::decode(&pretty).unwrap(), root);
        assert_eq!(Root::decode(&compact).unwrap().encode(false), compact);
        assert_eq!(Root::decode(&pretty).unwrap().encode(true), pretty);
    }
}

#[test]
fn root_decode_defaults() {
    // an empty object is a valid root: the path falls back to empty, the
    // read-only mark stays unspecified
    let root = Root::decode("{}").unwrap();
    assert_eq!(root.path(), "");
    assert_eq!(root.readonly(), None);
}

#[test]
fn default_mounts() {
    let mounts = get_default_mounts();
    assert_eq!(mounts.len(), 7);
    assert_eq!(mounts[0].destination, "/proc");
    assert_eq!(mounts[0].typ.as_deref(), Some("proc"));
    assert_eq!(mounts[0].source.as_deref(), Some("proc"));
    assert!(mounts[0].options.is_none());
    assert_eq!(mounts[1].destination, "/dev");
    assert_eq!(
        mounts[1].options.as_ref().unwrap(),
        &vec!["nosuid", "strictatime", "mode=755", "size=65536k"]
    );
    assert_eq!(mounts[6].destination, "/sys/fs/cgroup");
    assert_eq!(
        mounts[6].options.as_ref().unwrap(),
        &vec!["nosuid", "noexec", "nodev", "relatime", "ro"]
    );
    // each call builds the sequence afresh
    assert_eq!(get_default_mounts(), mounts);
}

#[test]
fn mount_round_trip() {
    for mount in get_default_mounts() {
        let compact = mount.encode(false);
        let pretty = mount.encode(true);
        assert_eq!(Mount::decode(&compact).unwrap(), mount);
        assert_eq!(Mount::decode(&pretty).unwrap(), mount);
        assert_eq!(Mount::decode(&compact).unwrap().encode(false), compact);
        assert_eq!(Mount::decode(&pretty).unwrap().encode(true), pretty);
    }
}

#[test]
fn mount_type_key_spelling() {
    let mount = Mount {
        destination: "/data".to_string(),
        typ: Some("bind".to_string()),
        source: None,
        options: None,
    };
    // the kind is written under the wire name "type"
    assert_eq!(mount.encode(false), "{\"destination\":\"/data\",\"type\":\"bind\"}");
    let back = Mount::decode("{\"type\":\"bind\",\"destination\":\"/data\"}").unwrap();
    assert_eq!(back, mount);
}

#[test]
fn mount_requires_destination() {
    assert!(Mount::decode("{\"type\":\"bind\"}").is_err());
    assert!(Mount::decode("{}").is_err());
}

#[test]
fn hook_builder_validates_timeout() {
    let hook = HookBuilder::default().path("/bin/ok").timeout(5).build().unwrap();
    assert_eq!(hook.path, "/bin/ok");
    assert_eq!(hook.timeout, Some(5));
    let err = HookBuilder::default().path("/bin/ok").timeout(0).build().unwrap_err();
    assert!(err.is_builder());
    assert!(HookBuilder::default().timeout(-3).build().is_err());
    // unset fields take their defaults
    let bare = HookBuilder::default().build().unwrap();
    assert_eq!(bare.path, "");
    assert!(bare.args.is_none() && bare.env.is_none() && bare.timeout.is_none());
}

#[test]
fn hook_round_trip() {
    let hook = HookBuilder::default()
        .path("/usr/bin/setup")
        .args(vec!["setup".to_string(), "--net".to_string()])
        .env(vec!["PATH=/bin".to_string()])
        .timeout(30)
        .build()
        .unwrap();
    let compact = hook.encode(false);
    assert_eq!(
        compact,
        "{\"path\":\"/usr/bin/setup\",\"args\":[\"setup\",\"--net\"],\
         \"env\":[\"PATH=/bin\"],\"timeout\":30}"
    );
    let pretty = hook.encode(true);
    assert_eq!(Hook::decode(&compact).unwrap(), hook);
    assert_eq!(Hook::decode(&pretty).unwrap(), hook);
    assert_eq!(Hook::decode(&compact).unwrap().encode(false), compact);
    assert_eq!(Hook::decode(&pretty).unwrap().encode(true), pretty);
}

#[test]
fn hook_omission_and_requirements() {
    let bare = Hook {
        path: "/bin/x".to_string(),
        args: None,
        env: None,
        timeout: None,
    };
    assert_eq!(bare.encode(false), "{\"path\":\"/bin/x\"}");
    assert!(Hook::decode("{\"timeout\":3}").is_err());
    assert!(Hook::decode("{}").is_err());
}

#[test]
fn hooks_default_is_empty() {
    let hooks = Hooks::default();
    assert!(hooks.prestart.is_none());
    assert!(hooks.create_runtime.is_none());
    assert!(hooks.create_container.is_none());
    assert!(hooks.start_container.is_none());
    assert!(hooks.poststart.is_none());
    assert!(hooks.poststop.is_none());
    let hook = Hook::default();
    assert_eq!(hook.path, "");
}

#[test]
fn capped_cpu_round_trip() {
    let empty = SolarisCappedCPU::default();
    assert_eq!(empty.encode(false), "{}");
    assert_eq!(SolarisCappedCPU::decode("{}").unwrap(), empty);
    let capped = SolarisCappedCPU {
        ncpus: Some("3.5".to_string()),
    };
    let compact = capped.encode(false);
    assert_eq!(compact, "{\"ncpus\":\"3.5\"}");
    let pretty = capped.encode(true);
    assert_eq!(SolarisCappedCPU::decode(&compact).unwrap(), capped);
    assert_eq!(SolarisCappedCPU::decode(&pretty).unwrap(), capped);
    assert_eq!(SolarisCappedCPU::decode(&compact).unwrap().encode(false), compact);
    assert_eq!(SolarisCappedCPU::decode(&pretty).unwrap().encode(true), pretty);
}

#[test]
fn solaris_defaults_are_empty() {
    let solaris = Solaris::default();
    assert!(solaris.milestone.is_none());
    assert!(solaris.limitpriv.is_none());
    assert!(solaris.max_shm_memory.is_none());
    assert!(solaris.anet.is_none());
    assert!(solaris.capped_cpu.is_none());
    assert!(solaris.capped_memory.is_none());
    assert!(SolarisAnet::default().linkname.is_none());
    assert!(SolarisCappedCPU::default().ncpus.is_none());
    let memory = SolarisCappedMemory::default();
    assert!(memory.physical.is_none() && memory.swap.is_none());
}
