use smbn::paths::{join, AppPaths, EngineLaunch};

#[test]
fn joining_paths() {
    assert_eq!(join(r"C:\app", "engine"), r"C:\app\engine");
    assert_eq!(join(r"C:\app\", "engine"), r"C:\app\engine");
    assert_eq!(join("C:/app/", "engine"), "C:/app/engine");
    assert_eq!(join("C:", "engine"), "C:engine");
    assert_eq!(join("", "engine"), "engine");
}

#[test]
fn data_directory_locations() {
    let portable = AppPaths::from_locations(r"D:\Smbn".into(), true, Some(r"C:\Users\a\AppData\Local".into()));
    assert_eq!(portable.data_dir, r"D:\Smbn\data");
    assert_eq!(portable.config_file, r"D:\Smbn\data\config.json");
    assert_eq!(portable.log_dir, r"D:\Smbn\data\logs");
    let installed = AppPaths::from_locations(r"D:\Smbn".into(), false, Some(r"C:\Users\a\AppData\Local".into()));
    assert_eq!(installed.data_dir, r"C:\Users\a\AppData\Local\Smbn");
    let fallback = AppPaths::from_locations(r"D:\Smbn".into(), false, None);
    assert_eq!(fallback.data_dir, r"D:\Smbn\Smbn");
    assert_eq!(fallback.exe_dir, r"D:\Smbn");
}

fn path_of(launch: &EngineLaunch) -> (bool, String) {
    match launch {
        EngineLaunch::Executable(p) => (false, p.clone()),
        EngineLaunch::DotnetDll(p) => (true, p.clone()),
    }
}

#[test]
fn engine_candidates_in_order() {
    let paths = AppPaths::from_locations(r"D:\Smbn".into(), true, None);
    let candidates: Vec<(bool, String)> = paths.engine_candidates().iter().map(path_of).collect();
    assert_eq!(
        candidates,
        vec![
            (false, r"D:\Smbn\engine\Smbn.Engine.exe".to_string()),
            (false, r"D:\Smbn\Smbn.Engine.exe".to_string()),
            (true, r"D:\Smbn\engine\Smbn.Engine.dll".to_string()),
            (true, r"D:\Smbn\Smbn.Engine.dll".to_string()),
        ]
    );
}

#[test]
fn first_present_engine_is_chosen() {
    let paths = AppPaths::from_locations(r"D:\Smbn".into(), true, None);
    let chosen = paths.engine_executable(&vec![false, true, true, false]).unwrap();
    assert_eq!(path_of(&chosen), (false, r"D:\Smbn\Smbn.Engine.exe".to_string()));
    let chosen = paths.engine_executable(&vec![false, false, false, true]).unwrap();
    assert_eq!(path_of(&chosen), (true, r"D:\Smbn\Smbn.Engine.dll".to_string()));
    assert!(paths.engine_executable(&vec![false, false, false, false]).is_none());
}
