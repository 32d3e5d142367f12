use bytes::Bytes;
use rave::h264::error::Error;
use rave::h264::nal_utils::split_nals_annex_b;

#[test]
fn splits_at_start_codes_of_both_lengths() {
    let data = Bytes::from_static(&[
        0, 0, 0, 1, 0x67, 1, 2, 0, 0, 1, 0x68, 3, 0, 0, 0, 1, 0x65, 4, 5, 6,
    ]);
    let nals = split_nals_annex_b(data).unwrap();
    assert_eq!(
        nals,
        vec![
            Bytes::from_static(&[0x67, 1, 2]),
            Bytes::from_static(&[0x68, 3]),
            Bytes::from_static(&[0x65, 4, 5, 6]),
        ]
    );
}

#[test]
fn needs_a_start_code_in_front() {
    assert_eq!(
        split_nals_annex_b(Bytes::from_static(&[0x67, 0, 0, 1])),
        Err(Error::AnnexBStartCodeMissing)
    );
    assert_eq!(
        split_nals_annex_b(Bytes::from_static(&[0, 0])),
        Err(Error::AnnexBStartCodeMissing)
    );
}

#[test]
fn start_code_alone_holds_no_unit() {
    assert_eq!(
        split_nals_annex_b(Bytes::from_static(&[0, 0, 1])).unwrap(),
        Vec::<Bytes>::new()
    );
    assert_eq!(
        split_nals_annex_b(Bytes::from_static(&[0, 0, 1, 9, 0, 0, 1])).unwrap(),
        vec![Bytes::from_static(&[9])]
    );
}
