use task_maker_exec::frame::{frame, unframe, PREFIX};

#[test]
fn a_frame_is_the_length_and_the_bytes() {
    assert_eq!(frame(&vec![]), vec![0, 0, 0, 0, 0, 0, 0, 0]);
    assert_eq!(frame(&vec![7, 8, 9]), vec![0, 0, 0, 0, 0, 0, 0, 3, 7, 8, 9]);
    let long = vec![1u8; 258];
    let framed = frame(&long);
    assert_eq!(&framed[..PREFIX], &[0, 0, 0, 0, 0, 0, 1, 2]);
    assert_eq!(framed[..PREFIX], (long.len() as u64).to_be_bytes());
    assert_eq!(&framed[PREFIX..], &long[..]);
}

#[test]
fn a_frame_arrives_whole_or_not_at_all() {
    let mut buffer = frame(&vec![1, 2, 3]);
    buffer.extend(frame(&vec![4]));
    for cut in 0..11 {
        assert_eq!(unframe(&buffer[..cut].to_vec()), None);
    }
    let (first, used) = unframe(&buffer).unwrap();
    assert_eq!((first, used), (vec![1, 2, 3], 11));
    let (second, used) = unframe(&buffer[used..].to_vec()).unwrap();
    assert_eq!((second, used), (vec![4], 9));
    assert_eq!(unframe(&vec![0, 0, 0, 0, 0, 0, 0, 0]), Some((vec![], 8)));
    assert_eq!(unframe(&vec![255, 255, 255, 255, 255, 255, 255, 255, 1]), None);
}
