use eshu_trace::{parse_dpkg_list, parse_pacman_list, parse_rpm_list, Package};

fn pairs(ps: &[Package]) -> Vec<(String, String)> {
    ps.iter().map(|p| (p.name.clone(), p.version.clone())).collect()
}

#[test]
fn pacman_listing_is_parsed() {
    let output = "bash 5.1.016-1\nlinux 6.6.1.arch1-1\nsingletoken\n\nzlib 1.3-1\n";
    let ps = parse_pacman_list(output);
    assert_eq!(
        pairs(&ps),
        vec![
            ("bash".to_string(), "5.1.016-1".to_string()),
            ("linux".to_string(), "6.6.1.arch1-1".to_string()),
            ("zlib".to_string(), "1.3-1".to_string()),
        ]
    );
}

#[test]
fn pacman_extra_tokens_are_ignored() {
    let ps = parse_pacman_list("pkg 1.0 extra words\n");
    assert_eq!(pairs(&ps), vec![("pkg".to_string(), "1.0".to_string())]);
}

#[test]
fn dpkg_listing_keeps_only_installed_lines() {
    let output = "Desired=Unknown/Install/Remove\n\
                  | Status=Not/Inst\n\
                  ||/ Name  Version  Architecture  Description\n\
                  ii  bash  5.1-2  amd64  GNU Bourne Again SHell\n\
                  rc  removedpkg  0.1  amd64  gone\n\
                  ii  zlib1g  1:1.2.11  amd64  compression library\n";
    let ps = parse_dpkg_list(output);
    assert_eq!(
        pairs(&ps),
        vec![
            ("bash".to_string(), "5.1-2".to_string()),
            ("zlib1g".to_string(), "1:1.2.11".to_string()),
        ]
    );
}

#[test]
fn rpm_listing_splits_name_and_version() {
    let output = "bash-5.1.0-1.fc38.x86_64\npython-pip-21.0-1.fc38.noarch\nnodash\none-dash\n";
    let ps = parse_rpm_list(output);
    assert_eq!(
        pairs(&ps),
        vec![
            ("bash".to_string(), "5.1.0-1.fc38.x86_64".to_string()),
            ("python-pip".to_string(), "21.0-1.fc38.noarch".to_string()),
        ]
    );
}

#[test]
fn empty_outputs_yield_no_packages() {
    assert!(parse_pacman_list("").is_empty());
    assert!(parse_dpkg_list("").is_empty());
    assert!(parse_rpm_list("").is_empty());
}
