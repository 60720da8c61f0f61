use clipvault::parser::cli_args_parser;
use clipvault::paths::{meta_path, tmp_path};
use clipvault::prefs::set_autostart;
use clipvault::types::CliArgs;

#[test]
fn derived_paths_append_their_suffixes() {
    assert_eq!(meta_path("/tmp/history.bin"), "/tmp/history.bin.meta.json");
    assert_eq!(tmp_path("/tmp/history.bin"), "/tmp/history.bin.tmp");
}

fn args(list: &[&str]) -> Vec<String> {
    list.iter().map(|s| String::from(*s)).collect()
}

#[test]
fn cli_classification() {
    assert_eq!(cli_args_parser(&args(&["clipvault"])), CliArgs::NoArguments);
    assert_eq!(cli_args_parser(&args(&[])), CliArgs::NoArguments);
    assert_eq!(cli_args_parser(&args(&["clipvault", "--help"])), CliArgs::Help);
    assert_eq!(cli_args_parser(&args(&["clipvault", "-h"])), CliArgs::Help);
    assert_eq!(cli_args_parser(&args(&["clipvault", "--clean-history"])), CliArgs::CleanHistory);
    assert_eq!(cli_args_parser(&args(&["clipvault", "-c"])), CliArgs::CleanHistory);
    assert_eq!(cli_args_parser(&args(&["clipvault", "--frobnicate"])), CliArgs::Unknown);
    assert_eq!(cli_args_parser(&args(&["clipvault", "help"])), CliArgs::Unknown);
}

#[test]
fn autostart_entry_wraps_the_executable_path() {
    let content = set_autostart(true, "/usr/local/bin/clipvault").unwrap();
    let expected = format!(
        "[Desktop Entry]\nType=Application\nName=ClipVault\nX-KDE-autostart-after=panel\nX-KDE-StartupNotify=false\nX-KDE-UniqueApplet=true\nX-GNOME-Autostart-Delay=3\nOnlyShowIn=GNOME;KDE;XFCE;LXQt;Unity;\nGenericName=Clipboard Manager\nComment=An encrypted clipboard manager\nTerminal=false\nExec=\"{}\"\nHidden=false\nX-GNOME-Autostart-enabled=true\n",
        "/usr/local/bin/clipvault"
    );
    assert_eq!(content, expected);
}

#[test]
fn autostart_disable_produces_nothing() {
    assert!(set_autostart(false, "/usr/local/bin/clipvault").is_none());
}
