use ps2_mouse::PacketAssembler;

#[test]
fn assembler_completes_once_per_packet() {
    for size in [3usize, 4] {
        let mut assembler = PacketAssembler::new(size);
        assert_eq!(assembler.packet_size(), size);
        let bytes = [0x0Au8, 0x0B, 0x0C, 0x0D];
        let mut completed = 0;
        for (i, b) in bytes[..size].iter().enumerate() {
            let r = assembler.push(*b);
            if i + 1 < size {
                assert_eq!(r, None);
                assert_eq!(assembler.fill_index(), i + 1);
            } else {
                let packet = r.expect("last byte completes the packet");
                assert_eq!(&packet[..size], &bytes[..size]);
                completed += 1;
            }
        }
        assert_eq!(completed, 1);
        assert_eq!(assembler.fill_index(), 0);
    }
}

#[test]
fn assembler_keeps_packets_apart() {
    let mut assembler = PacketAssembler::new(3);
    let stream = [1u8, 2, 3, 4, 5, 6, 7];
    let out: Vec<Option<[u8; 4]>> = stream.iter().map(|b| assembler.push(*b)).collect();
    assert_eq!(out[2].unwrap()[..3], [1, 2, 3]);
    assert_eq!(out[5].unwrap()[..3], [4, 5, 6]);
    assert_eq!(out.iter().filter(|o| o.is_some()).count(), 2);
    assert_eq!(assembler.fill_index(), 1);
}
