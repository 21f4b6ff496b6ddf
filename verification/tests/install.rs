use titans::install::{fallback_node_name, match_slaves, node_build_step, node_commands, Node, NodeStep, Storage};

fn node(name: &str, host: &str) -> Node {
    Node {
        node_name: name.to_string(),
        host: host.to_string(),
        ssh_user: String::from("root"),
        ssh_password: String::from("pw"),
        ssh_private_key_path: None,
    }
}

#[test]
fn first_match_is_the_node_and_last_match_names_it() {
    let slaves = vec![node("a", "10.0.0.1:22"), node("b", "10.0.0.2:22"), node("c", "10.0.0.2:23")];
    let ips = vec![String::from("10.0.0.1"), String::from("10.0.0.2"), String::from("10.0.0.2")];
    let m = match_slaves("10.0.0.2", &ips, &slaves);
    assert_eq!(m.first, Some(1));
    assert_eq!(m.name, "c");
}

#[test]
fn no_match_gives_empty_name() {
    let slaves = vec![node("a", "10.0.0.1:22")];
    let ips = vec![String::from("10.0.0.1")];
    let m = match_slaves("10.0.0.9", &ips, &slaves);
    assert_eq!(m.first, None);
    assert_eq!(m.name, "");
    let none = match_slaves("10.0.0.9", &vec![], &vec![]);
    assert_eq!(none.first, None);
}

#[test]
fn fallback_names() {
    assert_eq!(fallback_node_name("192.168.1.1", "192.168.1.1"), "Master");
    assert_eq!(fallback_node_name("192.168.1.1", "192.168.1.2"), "UnableToConfirmNodeName");
}

#[test]
fn commands_for_building_a_node() {
    let s = Storage {
        local_data: String::from("/l"),
        node_data: String::from("/srv/titans"),
        node_service_path: String::from("./TitansService"),
    };
    assert_eq!(
        node_commands(&s, true),
        vec![
            String::from("chmod -R 777 /srv/titans"),
            String::from("cd /srv/titans && ./TitansService"),
            String::from("ls -la /srv/titans"),
        ]
    );
    assert_eq!(node_commands(&s, false)[2], "");
}

#[test]
fn steps_of_a_node_build() {
    assert_eq!(node_build_step(0, ""), NodeStep::Upload);
    assert_eq!(node_build_step(0, "total 0"), NodeStep::Skip);
    assert_eq!(node_build_step(1, ""), NodeStep::Show);
    assert_eq!(node_build_step(2, "x"), NodeStep::Show);
}
