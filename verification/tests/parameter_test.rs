use systeroid::parameter::Parameter;
use systeroid::section::Section;

fn fictional_parameter() -> Parameter {
    Parameter {
        name: String::from("kernel.fictional.test_param"),
        value: String::from("1"),
        description: Some(String::from("This is a fictional parameter for testing")),
        section: Section::Kernel,
        docs_path: String::from("/etc/cosmos"),
        docs_title: String::from("Test Parameter"),
    }
}

#[test]
fn test_sysctl_parameter() {
    let mut parameter = fictional_parameter();
    assert_eq!(
        Some(String::from("test_param")),
        parameter.get_absolute_name()
    );

    let documentation = parameter.get_documentation().expect("no documentation");
    assert_eq!(
        "Test Parameter
        ==============
        This is a fictional parameter for testing
        -
        Parameter: kernel.fictional.test_param
        Reference: /etc/cosmos"
            .lines()
            .map(|line| line.trim_start())
            .collect::<Vec<&str>>()
            .join("\n"),
        documentation
    );

    parameter.description = None;
    assert!(parameter.get_documentation().is_none());

    parameter.name = String::from("kernel.fictional.testing.xyz.parameter");
    assert!(parameter.is_in_section(&parameter.section.name()));
    assert!(parameter.is_in_section("kernel"));
    assert!(parameter.is_in_section("kernel.fictional"));
    assert!(parameter.is_in_section("kernel.fictional.testing"));
    assert!(parameter.is_in_section("kernel.fictional.testing.xyz"));
    assert!(!parameter.is_in_section("xyz"));
    assert!(!parameter.is_in_section("test"));
    assert!(!parameter.is_in_section("ker"));
    assert!(!parameter.is_in_section("kernel.fi"));
    assert!(!parameter.is_in_section("kernel.fictional.tes"));
    assert!(!parameter.is_in_section(&parameter.name));
}

#[test]
fn test_display_bulk_json() {
    let parameters = vec![
        Parameter::new(String::from("kernel.version"), String::from("#1 SMP"), None),
        Parameter::new(String::from("vm.swappiness"), String::from("60"), None),
    ];
    assert_eq!(
        "[{\"name\":\"kernel.version\",\"value\":\"#1 SMP\",\"section\":\"kernel\"},\
         {\"name\":\"vm.swappiness\",\"value\":\"60\",\"section\":\"vm\"}]",
        Parameter::display_bulk_json(&parameters)
    );
    assert_eq!("[]", Parameter::display_bulk_json(&Vec::new()));
}

#[test]
fn test_parameter_new_classifies() {
    let p = Parameter::new(
        String::from("vm.swappiness"),
        String::from("60"),
        None,
    );
    assert_eq!(Section::Vm, p.section);
    assert_eq!("vm.swappiness", p.name);
    assert_eq!("60", p.value);
    assert!(p.description.is_none());
    assert_eq!("", p.docs_path);
    assert_eq!("", p.docs_title);
}
