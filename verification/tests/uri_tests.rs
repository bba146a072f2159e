use gcs_reader::{GCSObjectURI, GCSObjectURIError};

#[test]
fn test_valid_uri() {
    let uri = "gs://my_bucket/my_object";
    let gcs_obj = GCSObjectURI::new(uri).unwrap();
    assert_eq!(gcs_obj.bucket(), "my_bucket");
    assert_eq!(gcs_obj.object(), "my_object");
}

#[test]
fn test_invalid_prefix() {
    let uri = "s3://my_bucket/my_object";
    let gcs_obj = GCSObjectURI::new(uri);
    assert!(gcs_obj.is_err());
}

#[test]
fn test_missing_object() {
    let uri = "gs://my_bucket/";
    let gcs_obj = GCSObjectURI::new(uri);
    assert!(gcs_obj.is_err());
}

#[test]
fn test_missing_bucket_and_object() {
    let uri = "gs://";
    let gcs_obj = GCSObjectURI::new(uri);
    assert!(gcs_obj.is_err());
}

#[test]
fn test_uri_method() {
    let uri = "gs://my_bucket/my_object/folder";
    let gcs_obj = GCSObjectURI::new(uri).unwrap();
    assert_eq!(gcs_obj.uri(), "gs://my_bucket/my_object/folder");
}

#[test]
fn test_endpoint_method() {
    let uri = "gs://my_bucket/my_object/folder";
    let gcs_obj = GCSObjectURI::new(uri).unwrap();
    assert_eq!(
        gcs_obj.endpoint(),
        "https://storage.googleapis.com/storage/v1/b/my_bucket/o/my_object%2Ffolder"
    );
}

#[test]
fn invalid_prefix_carries_identifier() {
    let r = GCSObjectURI::new("s3://bucket/object");
    assert_eq!(
        r.unwrap_err(),
        GCSObjectURIError::InvalidPrefix("s3://bucket/object".to_string())
    );
}

#[test]
fn short_identifier_is_invalid_prefix() {
    assert!(matches!(
        GCSObjectURI::new("gs:"),
        Err(GCSObjectURIError::InvalidPrefix(_))
    ));
    assert!(matches!(
        GCSObjectURI::new(""),
        Err(GCSObjectURIError::InvalidPrefix(_))
    ));
}

#[test]
fn empty_bucket_is_missing_bucket() {
    assert_eq!(
        GCSObjectURI::new("gs://").unwrap_err(),
        GCSObjectURIError::MissingBucket
    );
    assert_eq!(
        GCSObjectURI::new("gs:///object").unwrap_err(),
        GCSObjectURIError::MissingBucket
    );
}

#[test]
fn empty_object_is_missing_object() {
    assert_eq!(
        GCSObjectURI::new("gs://bucket/").unwrap_err(),
        GCSObjectURIError::MissingObject
    );
    assert_eq!(
        GCSObjectURI::new("gs://bucket").unwrap_err(),
        GCSObjectURIError::MissingObject
    );
}

#[test]
fn canonical_uri_round_trips() {
    let id = "gs://b1/deep/path/to/object.bin";
    let parsed = GCSObjectURI::new(id).unwrap();
    assert_eq!(parsed.bucket(), "b1");
    assert_eq!(parsed.object(), "deep/path/to/object.bin");
    assert_eq!(parsed.uri(), id);
}

#[test]
fn endpoint_without_slash_in_object() {
    let parsed = GCSObjectURI::new("gs://bucket/object").unwrap();
    assert_eq!(
        parsed.endpoint(),
        "https://storage.googleapis.com/storage/v1/b/bucket/o/object"
    );
}
