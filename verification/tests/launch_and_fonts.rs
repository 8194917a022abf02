use markpad::fonts::sorted_families;
use markpad::launch::{
    background_color, build_is_win11, first_path_argument, get_app_mode, is_installer_mode,
    markdown_paths, window_label, Color,
};

fn strings(v: &[&str]) -> Vec<String> {
    v.iter().map(|s| s.to_string()).collect()
}

#[test]
fn paths_skip_program_and_options() {
    let args = strings(&["markpad", "-v", "a.md", "--flag", "b.md"]);
    assert_eq!(markdown_paths(&args, None), strings(&["a.md", "b.md"]));
}

#[test]
fn startup_file_goes_first() {
    let args = strings(&["markpad", "a.md"]);
    assert_eq!(markdown_paths(&args, Some("z.md".to_string())), strings(&["z.md", "a.md"]));
    assert_eq!(markdown_paths(&args, Some("a.md".to_string())), strings(&["a.md"]));
    assert_eq!(markdown_paths(&[].to_vec(), Some("z.md".to_string())), strings(&["z.md"]));
}

#[test]
fn first_path() {
    assert_eq!(first_path_argument(&strings(&["p", "-x", "f.md", "g.md"])), Some("f.md".to_string()));
    assert_eq!(first_path_argument(&strings(&["p", "-x"])), None);
    assert_eq!(first_path_argument(&strings(&[])), None);
    assert_eq!(first_path_argument(&strings(&["p", ""])), Some("".to_string()));
}

#[test]
fn app_modes() {
    assert_eq!(get_app_mode(&strings(&["p", "--uninstall"]), "Markpad.exe", true), "uninstall");
    assert_eq!(get_app_mode(&strings(&["p", "--install"]), "markpad", true), "app");
    assert_eq!(get_app_mode(&strings(&["p", "--install"]), "markpad", false), "installer");
    assert_eq!(get_app_mode(&strings(&["p"]), "MarkpadInstaller.exe", false), "installer");
    assert_eq!(get_app_mode(&strings(&["p"]), "markpad.exe", false), "app");
}

#[test]
fn installer_detection() {
    assert!(is_installer_mode(&strings(&["p"]), "SETUP-INSTALLER"));
    assert!(!is_installer_mode(&strings(&["p", "--installx"]), "markpad"));
}

#[test]
fn labels() {
    assert_eq!(window_label(true), "installer");
    assert_eq!(window_label(false), "main");
}

#[test]
fn backgrounds() {
    let dark = Color { r: 24, g: 24, b: 24, a: 255 };
    let light = Color { r: 253, g: 253, b: 253, a: 255 };
    assert_eq!(background_color("dark", Some(false)), dark);
    assert_eq!(background_color("light", Some(true)), light);
    assert_eq!(background_color("system", Some(true)), dark);
    assert_eq!(background_color("system", Some(false)), light);
    assert_eq!(background_color("system", None), light);
}

#[test]
fn windows_builds() {
    assert!(build_is_win11("22000"));
    assert!(build_is_win11("+22631"));
    assert!(!build_is_win11("19045"));
    assert!(!build_is_win11(""));
    assert!(!build_is_win11("+"));
    assert!(!build_is_win11("-22000"));
    assert!(!build_is_win11("22000 "));
    assert!(build_is_win11("4294967295"));
    assert!(!build_is_win11("4294967296"));
    assert!(!build_is_win11("99999999999999999999"));
    for s in ["0", "21999", "22000", "+1", "007", "4294967295", "4294967296", "12a", "+-1"] {
        let expected = matches!(s.parse::<u32>(), Ok(n) if n >= 22000);
        assert_eq!(build_is_win11(s), expected, "build {:?}", s);
    }
}

#[test]
fn families_sorted_once() {
    let v = strings(&["Noto", "Arial", "noto", "Arial", "Ärial", "Zapf", "Noto"]);
    let mut expected = v.clone();
    expected.sort();
    expected.dedup();
    assert_eq!(sorted_families(&v), expected);
    assert_eq!(sorted_families(&Vec::new()), Vec::<String>::new());
}

use markpad::save::{save_next, SaveNext, SaveStep};

#[test]
fn save_protocol() {
    assert_eq!(save_next(SaveStep::WriteTemp, true, true, true), SaveNext::Do(SaveStep::Rename));
    assert_eq!(save_next(SaveStep::WriteTemp, false, true, true), SaveNext::DiscardTempAndFail);
    assert_eq!(save_next(SaveStep::Rename, false, false, false), SaveNext::DiscardTempAndFail);
    assert_eq!(save_next(SaveStep::Rename, true, true, false), SaveNext::Do(SaveStep::RestorePermissions));
    assert_eq!(save_next(SaveStep::Rename, true, false, true), SaveNext::Do(SaveStep::SyncDirectory));
    assert_eq!(save_next(SaveStep::Rename, true, false, false), SaveNext::Succeed);
    assert_eq!(save_next(SaveStep::RestorePermissions, false, true, true), SaveNext::Do(SaveStep::SyncDirectory));
    assert_eq!(save_next(SaveStep::RestorePermissions, true, true, false), SaveNext::Succeed);
    assert_eq!(save_next(SaveStep::SyncDirectory, false, true, true), SaveNext::Succeed);
}

#[test]
fn save_run_succeeds_only_after_write_and_rename() {
    // Every sequence of outcomes: success needs the first two steps to succeed.
    for bits in 0u32..16 {
        let outcomes: Vec<bool> = (0..4).map(|k| bits & (1 << k) != 0).collect();
        for restore in [false, true] {
            for sync in [false, true] {
                let mut step = SaveStep::WriteTemp;
                let mut ended = None;
                for (k, ok) in outcomes.iter().enumerate() {
                    match save_next(step, *ok, restore, sync) {
                        SaveNext::Do(next) => step = next,
                        SaveNext::DiscardTempAndFail => {
                            ended = Some((k, false));
                            break;
                        }
                        SaveNext::Succeed => {
                            ended = Some((k, true));
                            break;
                        }
                    }
                }
                if let Some((_, true)) = ended {
                    assert!(outcomes[0] && outcomes[1]);
                }
            }
        }
    }
}
