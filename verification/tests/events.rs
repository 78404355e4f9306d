use logpushi::event::{dataset_family, detect_severity};

#[test]
fn severity_basic() {
    assert_eq!(
        detect_severity("2015-07-29 17:41:41,536 WARN something"),
        Some("WARN")
    );
    assert_eq!(detect_severity("plain message"), None);
    assert_eq!(detect_severity("level=error worker stopped"), Some("ERROR"));
}

#[test]
fn dataset_families() {
    assert_eq!(dataset_family("BGL/BGL.log"), "bgl");
    assert_eq!(dataset_family("Hadoop/app1/src1"), "hadoop");
    assert_eq!(dataset_family("unknown.log"), "generic");
}

#[test]
fn severity_prefers_the_first_pattern() {
    assert_eq!(detect_severity("INFO then FATAL"), Some("FATAL"));
    assert_eq!(detect_severity("ERR: disk"), Some("ERROR"));
    assert_eq!(detect_severity("WRN low"), Some("WARN"));
    assert_eq!(detect_severity("NOTICE DEBUG"), Some("NOTICE"));
    assert_eq!(detect_severity("CRITICAL INFO"), Some("CRITICAL"));
    assert_eq!(detect_severity("TRACE VERBOSE"), Some("TRACE"));
    assert_eq!(detect_severity("VERBOSE"), Some("VERBOSE"));
    assert_eq!(detect_severity("Error"), None);
}

#[test]
fn dataset_families_by_name() {
    for (path, family) in [
        ("Apache.log", "apache"),
        ("Linux.log", "linux-syslog"),
        ("Mac.log", "mac-syslog"),
        ("SSH.log", "ssh-syslog"),
        ("Proxifier.log", "proxifier"),
        ("Zookeeper.log", "zookeeper"),
        ("HealthApp.log", "health-app"),
        ("Android_v1/Android.log", "android"),
        ("HPC/HPC.log", "hpc"),
        ("OpenStack/openstack_normal1.log", "openstack"),
        ("yarn/x.log", "hadoop"),
    ] {
        assert_eq!(dataset_family(path), family, "{path}");
    }
}
