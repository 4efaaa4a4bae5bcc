use systeroid::cache::CacheData;
use systeroid::config::Config;
use systeroid::controller::Sysctl;
use systeroid::parameter::Parameter;
use systeroid::section::Section;

fn snapshot_params() -> Vec<Parameter> {
    vec![
        Parameter {
            name: String::from("vm.zone_reclaim_mode"),
            value: String::new(),
            description: Some(String::from(
                "zone_reclaim_mode is disabled by default.\nLine \"two\"\twith escapes \\ inside.",
            )),
            section: Section::Vm,
            docs_path: String::from("admin-guide/sysctl/vm.rst"),
            docs_title: String::from("zone_reclaim_mode"),
        },
        Parameter {
            name: String::from("kernel.hostname"),
            value: String::new(),
            description: None,
            section: Section::Kernel,
            docs_path: String::new(),
            docs_title: String::new(),
        },
    ]
}

#[test]
fn test_cache_round_trip() {
    let data = CacheData::new(snapshot_params(), 1234567890);
    let encoded = data.encode();
    let decoded = CacheData::decode(&encoded).expect("decode failed");
    assert_eq!(1234567890, decoded.timestamp);
    assert_eq!(2, decoded.data.len());
    assert_eq!("vm.zone_reclaim_mode", decoded.data[0].name);
    assert_eq!(
        Some(String::from(
            "zone_reclaim_mode is disabled by default.\nLine \"two\"\twith escapes \\ inside.",
        )),
        decoded.data[0].description
    );
    assert_eq!(Section::Vm, decoded.data[0].section);
    assert_eq!("admin-guide/sysctl/vm.rst", decoded.data[0].docs_path);
    assert_eq!("zone_reclaim_mode", decoded.data[0].docs_title);
    assert_eq!("kernel.hostname", decoded.data[1].name);
    assert_eq!(None, decoded.data[1].description);
}

#[test]
fn test_cache_shape() {
    let data = CacheData::new(Vec::new(), 7);
    assert_eq!("{\"data\":[],\"timestamp\":7}", data.encode());
}

#[test]
fn test_cache_decode_rejects_garbage() {
    assert!(CacheData::decode("garbage").is_err());
    assert!(CacheData::decode("{\"data\":[],\"timestamp\":7} ").is_err());
    assert!(CacheData::decode("{\"data\":[],\"timestamp\":}").is_err());
}

#[test]
fn test_cache_freshness() {
    let params = vec![Parameter::new(
        String::from("vm.zone_reclaim_mode"),
        String::from("0"),
        None,
    )];
    let snapshot = snapshot_params();

    // A stale timestamp bypasses the cached payload.
    let mut sysctl = Sysctl::init(params, Config::default());
    let used = sysctl.update_docs_from_cache(&snapshot, 100, 200);
    assert!(!used);
    assert!(sysctl.parameters[0].description.is_none());

    // A matching timestamp applies the snapshot.
    let used = sysctl.update_docs_from_cache(&snapshot, 200, 200);
    assert!(used);
    let description = sysctl.parameters[0]
        .description
        .as_ref()
        .expect("description not restored");
    assert!(description.contains("zone_reclaim_mode is disabled by default."));
    assert_eq!("zone_reclaim_mode", sysctl.parameters[0].docs_title);
    // The live value is kept, not overwritten by the snapshot.
    assert_eq!("0", sysctl.parameters[0].value);
}
