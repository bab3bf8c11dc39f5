use dcmfree::errors::DcmFreeError;
use dcmfree::hcs::destroy_layer_result;
use dcmfree::privileges::priv_err_msg;

#[test]
fn missing_dir_message_is_clear() {
    let e = DcmFreeError::LayersDirMissing(r"C:\nowhere".into());
    assert_eq!(e.message(), r"layers directory not found: C:\nowhere");
}

#[test]
fn every_variant_has_its_message() {
    assert_eq!(
        DcmFreeError::NotElevated.message(),
        "not running as Administrator; HCS layer destruction requires elevation"
    );
    assert_eq!(
        priv_err_msg("SeBackupPrivilege", "access denied").message(),
        "failed to acquire privilege SeBackupPrivilege: access denied"
    );
    assert_eq!(
        DcmFreeError::HcsDestroyFailed { path: "C:\\L\\x".into(), hresult: 0x8007_0002 }.message(),
        "HcsDestroyLayer failed for C:\\L\\x: HRESULT 0x80070002"
    );
    assert_eq!(
        DcmFreeError::HcsOperationFailed { operation: "op".into(), hresult: 5, details: String::new() }
            .message(),
        "HCS operation failed (op): HRESULT 0x00000005"
    );
    assert_eq!(
        DcmFreeError::HcsOperationFailed { operation: "op".into(), hresult: 5, details: "busy".into() }
            .message(),
        "HCS operation failed (op): HRESULT 0x00000005 \u{2014} busy"
    );
    assert_eq!(
        DcmFreeError::DockerQueryFailed("boom".into()).message(),
        "docker query failed: boom"
    );
    let io = DcmFreeError::io("C:\\x".into(), std::io::Error::other("disk gone"));
    assert_eq!(io.message(), "io error at C:\\x: disk gone");
}

#[test]
fn destroy_result_maps_hresult() {
    assert!(destroy_layer_result("C:\\x", 0).is_ok());
    assert!(destroy_layer_result("C:\\x", 1).is_ok());
    match destroy_layer_result("C:\\x", -2147024894) {
        Err(DcmFreeError::HcsDestroyFailed { path, hresult }) => {
            assert_eq!(path, "C:\\x");
            assert_eq!(hresult, 0x8007_0002);
        }
        other => panic!("unexpected {other:?}"),
    }
}

#[test]
fn priv_err_msg_builds_privilege_error() {
    let e = priv_err_msg("SeRestorePrivilege", "partial");
    assert!(matches!(e, DcmFreeError::PrivilegeAcquireFailed { .. }));
}

#[test]
fn io_message_joins_path_and_cause() {
    assert_eq!(
        dcmfree::errors::io_message("C:\\L", "Access is denied."),
        "io error at C:\\L: Access is denied."
    );
}
