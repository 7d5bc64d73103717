use fubako::config::{Config, ConfigImageSync};

#[test]
fn test_config_data_dir() {
    let config = Config::new("/path/to/data/dir".to_owned(), None, None);
    assert_eq!(config.data_dir(), "/path/to/data/dir");
}

#[test]
fn test_config_image_sync() {
    let config = Config::new("/path/to/data/dir".to_owned(), None, None);
    assert!(config.image_sync().is_none());

    let config = Config::new(
        "/path/to/data/dir".to_owned(),
        Some(ConfigImageSync {
            bucket_name: "my-image-bucket".to_owned(),
            google_application_credentials: "/path/to/credentials.json".to_owned(),
            object_prefix: "images/".to_owned(),
        }),
        None,
    );
    let sync = config.image_sync().unwrap();
    assert_eq!(sync.bucket_name, "my-image-bucket");
    assert_eq!(sync.google_application_credentials, "/path/to/credentials.json");
    assert_eq!(sync.object_prefix, "images/");
}

#[test]
fn test_config_images_dir() {
    let config = Config::new("/path/to/data/dir".to_owned(), None, None);
    assert_eq!(config.images_dir(), "/path/to/data/dir/images");
}

#[test]
fn test_config_port() {
    let config = Config::new("/path/to/data/dir".to_owned(), None, None);
    assert_eq!(config.port(), 3000);

    let config = Config::new("/path/to/data/dir".to_owned(), None, Some(8080));
    assert_eq!(config.port(), 8080);
}

#[test]
fn test_impl_config_load() {}
