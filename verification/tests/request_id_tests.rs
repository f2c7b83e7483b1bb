use wot_api::request_id::UuidRequestId;

#[test]
fn request_id_source_is_a_unit() {
    assert_eq!(UuidRequestId::new(), UuidRequestId::new());
}
