use tofi::lock::resolve_lock_path;

#[test]
fn path_prefers_xdg_runtime_dir() {
    let path = resolve_lock_path(Some("/run/user/1000"), Some("/home/user/.cache"), Some("/home/user"))
        .expect("path");
    assert_eq!(path, "/run/user/1000/tofi.lock");
}

#[test]
fn path_falls_back_to_xdg_cache_home() {
    let path = resolve_lock_path(None, Some("/home/user/.cache"), Some("/home/user")).expect("path");
    assert_eq!(path, "/home/user/.cache/tofi.lock");
}

#[test]
fn path_falls_back_to_home_cache() {
    let path = resolve_lock_path(None, None, Some("/home/user")).expect("path");
    assert_eq!(path, "/home/user/.cache/tofi.lock");
}

#[test]
fn path_returns_none_when_no_env_set() {
    let path = resolve_lock_path(None, None, None);
    assert!(path.is_none());
}
