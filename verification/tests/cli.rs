use brush_splat::cli::{Cli, DataSource, ErrorKind};
use brush_splat::config::ProcessConfig;

fn cli(source: Option<DataSource>, with_viewer: bool) -> Cli<ProcessConfig> {
    Cli {
        source,
        with_viewer,
        train_stream: ProcessConfig::default(),
    }
}

#[test]
fn validate_rejects_headless_without_source() {
    let mut cli = cli(None, true);
    cli.with_viewer = false;
    let Err(err) = cli.validate() else {
        panic!("expected validation error")
    };
    assert_eq!(err.kind(), ErrorKind::MissingRequiredArgument);
    assert_eq!(
        err.message(),
        "When --with-viewer is false, --source must be provided"
    );
}

#[test]
fn every_other_combination_is_valid() {
    let path = DataSource::Path("some/dataset/path".to_string());
    let kept = cli(Some(path.clone()), false).validate().ok().unwrap();
    assert_eq!(kept.source, Some(path.clone()));
    assert!(!kept.with_viewer);
    assert!(cli(Some(path), true).validate().is_ok());
    assert!(cli(None, true).validate().is_ok());
    let url = DataSource::Url("https://example.com/data.zip".to_string());
    assert!(cli(Some(url), false).validate().is_ok());
}

#[test]
fn process_options_have_their_defaults() {
    let config = ProcessConfig::default();
    assert_eq!(config.seed, 42);
    assert_eq!(config.start_iter, 0);
    assert_eq!(config.eval_every, 1000);
    assert!(!config.eval_save_to_disk);
    assert_eq!(config.export_every, 5000);
    assert_eq!(config.export_path, "./{dataset}_exports/");
    assert_eq!(config.export_name, "export_{iter}.ply");
    assert!(!config.export_evidence);
    assert_eq!(config.evidence_prune_inmask, None);
    assert_eq!(config.evidence_normal_weight.bits, 0.0f32.to_bits());
}
