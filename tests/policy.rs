use xss_guard::policy::{build_csp_header, csp_header_value, default_policy, PolicyDirectiveSet, PolicyError};

fn sources(list: &[&str]) -> Vec<String> {
    list.iter().map(|s| s.to_string()).collect()
}

#[test]
fn fixed_policy_header_is_exact() {
    assert_eq!(build_csp_header(&default_policy()), "default-src 'self'; script-src 'self'");
    assert_eq!(csp_header_value(), "default-src 'self'; script-src 'self'");
    assert_eq!(csp_header_value(), csp_header_value());
}

#[test]
fn insertion_order_is_kept() {
    let mut set = PolicyDirectiveSet::new();
    assert_eq!(set.insert("img-src".to_string(), sources(&["https:", "data:"])), Ok(()));
    assert_eq!(set.insert("default-src".to_string(), sources(&["'none'"])), Ok(()));
    assert_eq!(set.len(), 2);
    assert_eq!(build_csp_header(&set), "img-src https: data:; default-src 'none'");
}

#[test]
fn empty_set_and_empty_source_list() {
    let mut set = PolicyDirectiveSet::new();
    assert_eq!(build_csp_header(&set), "");
    assert_eq!(set.insert("upgrade-insecure-requests".to_string(), Vec::new()), Ok(()));
    assert_eq!(build_csp_header(&set), "upgrade-insecure-requests");
}

#[test]
fn duplicate_directive_is_refused() {
    let mut set = default_policy();
    assert_eq!(
        set.insert("script-src".to_string(), sources(&["'unsafe-inline'"])),
        Err(PolicyError::DuplicateDirective)
    );
    assert_eq!(build_csp_header(&set), "default-src 'self'; script-src 'self'");
}

#[test]
fn malformed_name_is_refused() {
    let mut set = PolicyDirectiveSet::new();
    assert_eq!(set.insert(String::new(), sources(&["'self'"])), Err(PolicyError::InvalidName));
    assert_eq!(set.insert("script src".to_string(), sources(&["'self'"])), Err(PolicyError::InvalidName));
    assert_eq!(set.insert("script-src;".to_string(), sources(&["'self'"])), Err(PolicyError::InvalidName));
    assert_eq!(set.len(), 0);
}

#[test]
fn malformed_source_is_refused() {
    let mut set = PolicyDirectiveSet::new();
    assert_eq!(
        set.insert("script-src".to_string(), sources(&["'self'; object-src *"])),
        Err(PolicyError::InvalidSource)
    );
    assert_eq!(set.insert("script-src".to_string(), sources(&["a,b"])), Err(PolicyError::InvalidSource));
    assert_eq!(set.insert("script-src".to_string(), sources(&[""])), Err(PolicyError::InvalidSource));
    assert_eq!(set.len(), 0);
}
