use ufbx::writer::{SaveFormat, SaveOpts};

#[test]
fn test_save_opts_default() {
    let opts = SaveOpts::default();
    assert_eq!(opts.format, SaveFormat::Binary);
    assert_eq!(opts.version, 7400);
    assert_eq!(opts.compress_arrays, true);
}

#[test]
fn lib_test_version() {
    assert_eq!(ufbx::version(), "0.21.2");
}
