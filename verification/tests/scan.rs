use pir_bench::scan::{Scan, SCAN_BUFFER};

fn sample() -> Vec<u8> {
    (0..300).map(|i: usize| ((i * 31 + 7) % 256) as u8).collect()
}

#[test]
fn what_to_read_next() {
    assert_eq!(Scan::new(0).next_read(), None);
    assert_eq!(Scan::new(10).next_read(), Some(10));
    assert_eq!(SCAN_BUFFER, 8 * 1024 * 1024);
    assert_eq!(Scan::new(SCAN_BUFFER as u64).next_read(), Some(SCAN_BUFFER));
    assert_eq!(Scan::new(u64::MAX).next_read(), Some(SCAN_BUFFER));
    let mut scan = Scan::new(300);
    scan.absorb(&sample()[..100]);
    assert_eq!(scan.next_read(), Some(200));
    scan.absorb(&sample()[100..]);
    assert_eq!(scan.next_read(), None);
}

#[test]
fn checksum_of_a_scan() {
    let mut scan = Scan::new(300);
    scan.absorb(&sample());
    assert_eq!(scan, Scan { target: 300, total: 300, checksum: 3378663 });
}

#[test]
fn reading_in_parts() {
    let data = sample();
    let mut lines = Scan::new(300);
    lines.absorb(&data[..128]);
    lines.absorb(&data[128..]);
    assert_eq!(lines.checksum, 3378663);
    let mut ragged = Scan::new(300);
    ragged.absorb(&data[..100]);
    ragged.absorb(&data[100..]);
    assert_eq!(ragged.checksum, 106075559);
}

#[test]
fn rotation_reaches_the_low_bits() {
    let mut scan = Scan { target: u64::MAX, total: 0, checksum: 0xf800_0000_0000_0001 };
    scan.absorb(&[0x40]);
    assert_eq!(scan.checksum, 0xf800_0000_0000_0001u64.rotate_left(5) ^ 0x40);
}

#[test]
fn reading_nothing_changes_nothing() {
    let mut scan = Scan { target: 9, total: 4, checksum: 77 };
    scan.absorb(&[]);
    assert_eq!(scan, Scan { target: 9, total: 4, checksum: 77 });
}

#[test]
fn a_scan_stays_within_its_target() {
    let data = sample();
    let mut scan = Scan::new(250);
    let mut at = 0;
    while let Some(want) = scan.next_read() {
        let n = want.min(64).min(data.len() - at);
        scan.absorb(&data[at..at + n]);
        at += n;
        assert!(scan.total <= scan.target);
    }
    assert_eq!(scan.total, 250);
}
