use nfsv2::fs::{handle_to_path, path_to_handle, FH_SIZE};

#[test]
fn short_path_roundtrips_through_handle() {
    let h = path_to_handle(b"/srv/data");
    assert_eq!(&h[..9], b"/srv/data");
    assert!(h[9..].iter().all(|&b| b == 0));
    assert_eq!(handle_to_path(h), b"/srv/data".to_vec());
}

#[test]
fn long_path_is_cut_at_handle_size() {
    let p: Vec<u8> = (0..40).map(|i| b'a' + (i % 26) as u8).collect();
    let h = path_to_handle(&p);
    assert_eq!(h.len(), FH_SIZE);
    assert_eq!(handle_to_path(h), p[..32].to_vec());
}

#[test]
fn empty_handle_names_empty_path() {
    assert_eq!(handle_to_path([0u8; 32]), Vec::<u8>::new());
}
