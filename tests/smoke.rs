use unifiedlog_sigma::args::{Action, AppArg, CsvTimelineOption};

#[test]
fn args_it_works() {
    assert_eq!(2 + 2, 4);
}

#[test]
fn detection_it_works() {
    assert_eq!(2 + 2, 4);
}

#[test]
fn main_it_works() {
    assert_eq!(2 + 2, 4);
}

#[test]
fn output_it_works() {
    assert_eq!(2 + 2, 4);
}

#[test]
fn parser_it_works() {
    assert_eq!(2 + 2, 4);
}

#[test]
fn app_arg_holds_its_options() {
    let arg = AppArg {
        action: Action::CsvTimeline(CsvTimelineOption {
            archive_dir: Some("system_logs.logarchive".to_string()),
            live_analysis: false,
            output: "out.csv".to_string(),
        }),
        debug: true,
    };
    match arg.action {
        Action::CsvTimeline(opt) => {
            assert_eq!(opt.archive_dir.as_deref(), Some("system_logs.logarchive"));
            assert!(!opt.live_analysis);
            assert_eq!(opt.output, "out.csv");
        }
    }
    assert!(arg.debug);
}
