use systeroid::section::Section;

#[test]
fn test_sysctl_section() {
    assert_eq!(Section::Net, Section::from_name("net.xyz"));
    assert_eq!(Section::User, Section::from_name("user.aaa.bbb"));
    assert_eq!(Section::Unknown, Section::from_name("test"));
    assert_eq!(Section::Sunrpc, Section::from(String::from("sunrpc")));
    assert_eq!(Section::Unknown, Section::from(String::from("test")));
    assert_eq!(Section::Vm, Section::from_path("/etc/vm.txt"));
    assert_eq!(Section::Kernel, Section::from_path("/etc/kernel.tar.gz"));
    assert_eq!(Section::Net, Section::from_path("/networking/abc"));
    assert_eq!(Section::Unknown, Section::from_path("test"));
}

#[test]
fn test_section_names() {
    assert_eq!("abi", Section::Abi.name());
    assert_eq!("kernel", Section::Kernel.name());
    assert_eq!("unknown", Section::Unknown.name());
    let variants = Section::variants();
    assert_eq!(7, variants.len());
    assert_eq!(Section::Abi, variants[0]);
    assert_eq!(Section::Vm, variants[6]);
}

#[test]
fn test_section_case_insensitive_label() {
    assert_eq!(Section::Vm, Section::from(String::from("VM")));
    assert_eq!(Section::Kernel, Section::from(String::from("KeRnEl")));
    assert_eq!(Section::Unknown, Section::from(String::from("kerne1")));
}
