use netstack::buf::NetBuffer;

#[test]
fn buf_test_new_prealloc() {
    let buf = NetBuffer::new_prealloc(1000);
    assert_eq!(buf.len(), 1000);
    assert!(!buf.is_empty());
}

#[test]
fn buf_test_new_prealloc_zero() {
    let buf = NetBuffer::new_prealloc(0);
    assert_eq!(buf.len(), 0);
    assert!(buf.is_empty());
}

#[test]
fn buf_test_iter1() {
    let mut buf = NetBuffer::new();
    buf.append_from_slice(&[1; 512]);
    buf.append_from_slice(&[2; 512]);
    buf.append_from_slice(&[3; 512]);

    // This range will chop the last fragment.
    let mut iter = buf.iter(1500);
    let slice1 = iter.next().unwrap();
    assert_eq!(slice1.len(), 512);
    assert_eq!(slice1[0], 1);
    assert_eq!(slice1[511], 1);
    let slice2 = iter.next().unwrap();
    assert_eq!(slice2.len(), 512);
    assert_eq!(slice2[0], 2);
    assert_eq!(slice2[511], 2);
    let slice3 = iter.next().unwrap();
    assert_eq!(slice3.len(), 476);
    assert_eq!(slice3[0], 3);
    assert_eq!(slice3[475], 3);
    assert!(iter.next().is_none());
}

#[test]
fn buf_test_iter2() {
    let mut buf = NetBuffer::new();
    buf.append_from_slice(&[1; 512]);

    let mut iter = buf.iter(0);
    assert!(iter.next().is_none());
}

#[test]
fn buf_test_iter_empty() {
    let buf = NetBuffer::new();
    let mut iter = buf.iter(usize::MAX);
    assert!(iter.next().is_none());
}

#[test]
fn buf_test_header() {
    let mut buf = NetBuffer::new();
    buf.append_from_slice(&[1; 512]);
    buf.alloc_header(20);
    let header = buf.header();
    assert_eq!(header.len(), 20);
    assert_eq!(header[0], 0);
    assert_eq!(header[19], 0);
}

#[test]
fn buf_test_header_mut() {
    let mut buf = NetBuffer::new();
    buf.append_from_slice(&[1; 512]);
    buf.alloc_header(20);
    let header = buf.header_mut();
    header[0] = 0xcc;
    header[19] = 0x55;

    let mut dest = [0; 512];
    buf.copy_to_slice(&mut dest);
    assert_eq!(dest[0], 0xcc);
    assert_eq!(dest[19], 0x55);
    assert_eq!(dest[20], 1);
}

#[test]
fn buf_test_alloc_header() {
    let mut buf = NetBuffer::new();
    buf.append_from_slice(&[1; 100]);
    assert!(buf.len() == 100);

    // This will add a new fragment.
    buf.alloc_header(20);
    assert_eq!(buf.len(), 120);
    {
        let header = buf.header_mut();
        header[0] = 1;
        header[19] = 2;
    }

    // This will extend the first fragment.
    buf.alloc_header(20);
    assert_eq!(buf.len(), 140);
    {
        let header = buf.header_mut();
        header[0] = 3;
        header[19] = 4;
    }

    let header = buf.header();
    assert_eq!(header[0], 3);
    assert_eq!(header[19], 4);
    assert_eq!(header[20], 1);
    assert_eq!(header[39], 2);
}

#[test]
fn test_alloc_header_empty() {
    let mut buf = NetBuffer::new();
    assert!(buf.is_empty());
    buf.alloc_header(20);
    assert!(!buf.is_empty());
    assert_eq!(buf.len(), 20);
    assert!(!buf.is_empty());
}

#[test]
fn buf_test_trim_head1() {
    // Truncate the first fragment.
    let mut buf = NetBuffer::new();
    let mut data = [0; 512];
    for i in 0..512 {
        data[i] = i as u8;
    }

    buf.append_from_slice(&data);
    assert_eq!(buf.len(), 512);
    buf.trim_head(20);
    assert!(buf.len() == 492);
    assert!(!buf.is_empty());

    let mut dest = [0; 512];
    buf.copy_to_slice(&mut dest);
    for i in 0..492 {
        assert_eq!(dest[i], (i + 20) as u8);
    }
}

#[test]
fn buf_test_trim_head2() {
    // Remove an entire fragment and truncate part of the next.
    let mut buf = NetBuffer::new();
    let mut data = [0; 512];
    for i in 0..512 {
        data[i] = i as u8;
    }

    buf.append_from_slice(&data);
    assert_eq!(buf.len(), 512);
    buf.alloc_header(20); // Prepends new fragment
    buf.trim_head(40); // Remove first fragment and then some
    assert_eq!(buf.len(), 492);
    assert!(!buf.is_empty());
    let header = buf.header();
    assert_eq!(header[0], 20);
    assert_eq!(header[5], 25);
}

#[test]
fn buf_test_trim_head_entire_buffer() {
    let mut buf = NetBuffer::new();
    buf.append_from_slice(&[1, 2, 3, 4, 5]);
    assert_eq!(buf.len(), 5);

    buf.trim_head(5);
    assert_eq!(buf.len(), 0);
    assert!(buf.is_empty());
}

#[test]
fn buf_test_trim_head_zero() {
    let mut buf = NetBuffer::new();
    buf.append_from_slice(&[1, 2, 3, 4, 5]);
    assert_eq!(buf.len(), 5);

    buf.trim_head(0);
    assert_eq!(buf.len(), 5);
    assert!(!buf.is_empty());
}

#[test]
fn buf_test_trim_tail() {
    // Truncate the last slice.
    let mut buf = NetBuffer::new();
    let mut data = [0; 512];
    for i in 0..512 {
        data[i] = i as u8;
    }

    buf.append_from_slice(&data);
    assert!(buf.len() == 512);
    buf.trim_tail(20);
    assert!(buf.len() == 492);

    let mut dest = [0; 512];
    buf.copy_to_slice(&mut dest);
    for i in 0..492 {
        assert_eq!(dest[i], i as u8);
    }
}

#[test]
fn buf_test_trim_tail2() {
    // Remove an entire fragment and truncate part of the former.
    let mut buf = NetBuffer::new();
    buf.append_from_slice(&[1; 512]);
    assert_eq!(buf.len(), 512);
    buf.append_from_slice(&[2; 20]);
    assert_eq!(buf.len(), 532);
    buf.trim_tail(40); // Remove part of the last fragment
    assert_eq!(buf.len(), 492);

    let mut dest = [0; 492];
    buf.copy_to_slice(&mut dest);
    assert_eq!(dest[..492], [1; 492]);
}

#[test]
fn buf_test_trim_entire_buffer() {
    let mut buf = NetBuffer::new();
    buf.append_from_slice(&[1, 2, 3, 4, 5]);
    assert_eq!(buf.len(), 5);

    buf.trim_tail(5);
    assert_eq!(buf.len(), 0);
    assert!(buf.is_empty());
}

#[test]
fn buf_test_trim_tail_zero() {
    let mut buf = NetBuffer::new();
    buf.append_from_slice(&[1, 2, 3, 4, 5]);
    assert_eq!(buf.len(), 5);

    buf.trim_tail(0);
    assert_eq!(buf.len(), 5);
}

#[test]
fn buf_test_append_from_slice() {
    let mut buf = NetBuffer::new();
    buf.append_from_slice(&[1, 2, 3, 4, 5]);
    assert_eq!(buf.len(), 5);
    buf.append_from_slice(&[6, 7, 8, 9, 10]);
    assert_eq!(buf.len(), 10);
    buf.append_from_slice(&[11, 12, 13, 14, 15]);
    assert_eq!(buf.len(), 15);

    let mut dest = [0; 15];
    buf.copy_to_slice(&mut dest);
    assert_eq!(dest, [1, 2, 3, 4, 5, 6, 7, 8, 9, 10, 11, 12, 13, 14, 15]);
}

#[test]
fn buf_test_append_from_slice_zero() {
    let mut buf = NetBuffer::new();
    buf.append_from_slice(&[1, 2, 3, 4]);
    assert_eq!(buf.len(), 4);
    buf.append_from_slice(&[]);
    assert_eq!(buf.len(), 4);
}

#[test]
fn buf_test_grow_buffer() {
    let mut buf = NetBuffer::new();

    // Fill up the first fragment.
    let slice1 = [1; 500];
    buf.append_from_slice(&[1; 500]);
    assert_eq!(buf.len(), 500);

    // This will first fill the remainder of the last fragment, then add
    // several new ones.
    let slice2 = [2; 1500];
    buf.append_from_slice(&[2; 1500]);
    assert_eq!(buf.len(), 2000);

    let mut dest = [0; 2000];
    buf.copy_to_slice(&mut dest);
    assert_eq!(dest[..500], slice1);
    assert_eq!(dest[500..], slice2);
}

#[test]
fn buf_test_grow_pool() {
    // Allocate many buffers at once and let them all go.
    let mut buflist = Vec::new();
    for _ in 0..32 {
        let mut buffer = NetBuffer::new();
        buffer.append_from_slice(&[1; 512]);
        buflist.push(buffer);
    }
}

#[test]
fn buf_test_copy_to_slice1() {
    let mut buf = NetBuffer::new();
    buf.append_from_slice(&[1, 2, 3, 4, 5, 6, 7, 8, 9, 10, 11, 12, 13, 14, 15]);

    // Destination slice is larger than buffer.
    let mut dest = [0; 20];
    let copied = buf.copy_to_slice(&mut dest);
    assert_eq!(
        dest,
        [1, 2, 3, 4, 5, 6, 7, 8, 9, 10, 11, 12, 13, 14, 15, 0, 0, 0, 0, 0]
    );
    assert_eq!(copied, 15);
    assert_eq!(buf.len(), 15);
}

#[test]
fn buf_test_copy_to_slice2() {
    let mut buf = NetBuffer::new();
    buf.append_from_slice(&[1, 2, 3, 4, 5, 6, 7, 8, 9, 10, 11, 12, 13, 14, 15]);

    // Destination slice is smaller than buffer.
    let mut dest = [0; 10];
    let copied = buf.copy_to_slice(&mut dest);
    assert_eq!(dest, [1, 2, 3, 4, 5, 6, 7, 8, 9, 10]);
    assert_eq!(copied, 10);
}

#[test]
fn buf_test_copy_empty_buffer_to_slice() {
    let buf = NetBuffer::new();
    let mut dest = [0; 10];
    let copied = buf.copy_to_slice(&mut dest);
    assert_eq!(copied, 0);
}

#[test]
fn buf_test_append_from_buffer() {
    let mut buf1 = NetBuffer::new();
    buf1.append_from_slice(&[1; 512]);
    buf1.append_from_slice(&[2; 512]);
    buf1.append_from_slice(&[3; 512]);
    assert_eq!(buf1.len(), 1536);

    let mut buf2 = NetBuffer::new();
    buf2.append_from_slice(&[4; 512]);
    buf2.append_from_slice(&[5; 512]);
    buf2.append_from_slice(&[6; 512]);
    buf1.append_from_buffer(&buf2, 1000);
    assert_eq!(buf1.len(), 2536);

    let mut dest = [0; 3000];
    buf1.copy_to_slice(&mut dest);
    assert_eq!(dest[0..512], [1; 512]);
    assert_eq!(dest[512..1024], [2; 512]);
    assert_eq!(dest[1024..1536], [3; 512]);
    assert_eq!(dest[1536..2048], [4; 512]);
    assert_eq!(dest[2048..2536], [5; 488]);

    assert_eq!(buf1.len(), 2536);
}

#[test]
fn buf_test_append_buffer1() {
    // Buffer being appended to is non empty.
    let mut buf1 = NetBuffer::new();
    buf1.append_from_slice(&[1; 512]);
    buf1.append_from_slice(&[2; 512]);
    buf1.append_from_slice(&[3; 512]);
    assert!(buf1.len() == 1536);

    let mut buf2 = NetBuffer::new();
    buf2.append_from_slice(&[4; 512]);
    buf2.append_from_slice(&[5; 512]);
    buf2.append_from_slice(&[6; 512]);
    assert!(buf1.len() == 1536);

    buf1.append_buffer(buf2);
    assert!(buf1.len() == 3072);

    let mut dest = [0; 1536];
    buf1.copy_to_slice(&mut dest);
    assert_eq!(dest[..512], [1; 512]);
    assert_eq!(dest[512..1024], [2; 512]);
    assert_eq!(dest[1024..1536], [3; 512]);
    assert_eq!(buf1.len(), 3072);
}

#[test]
fn buf_test_append_to_empty() {
    // Buffer being appended to is empty.
    let mut buf1 = NetBuffer::new();
    let mut buf2 = NetBuffer::new();
    buf2.append_from_slice(&[1; 512]);
    buf1.append_buffer(buf2);
    assert!(buf1.len() == 512);

    let mut dest = [0; 512];
    buf1.copy_to_slice(&mut dest);
    assert_eq!(dest[..512], [1; 512]);
}

#[test]
fn buf_test_append_empty_buffer() {
    // Buffer being appended is empty.
    let mut buf1 = NetBuffer::new();
    buf1.append_from_slice(&[1, 2, 3, 4, 5]);
    assert_eq!(buf1.len(), 5);

    let buf2 = NetBuffer::new();
    buf1.append_buffer(buf2);
    assert_eq!(buf1.len(), 5);

    let mut dest = [0; 5];
    buf1.copy_to_slice(&mut dest);
    assert_eq!(dest, [1, 2, 3, 4, 5]);
}

#[test]
fn buf_test_append_empty_to_empty() {
    let mut buf1 = NetBuffer::new();
    let buf2 = NetBuffer::new();
    buf1.append_buffer(buf2);
    assert_eq!(buf1.len(), 0);
}

#[test]
fn buf_test_receive_flow() {
    // Run the sequence of operations that happens when receiving a packet.
    let mut buf = NetBuffer::new();
    let mut data = [0; 512];
    for i in 0..512 {
        data[i] = i as u8;
    }

    buf.append_from_slice(&data);
    assert_eq!(buf.len(), 512);

    // Process protocol layers.
    let x = buf.header();
    assert_eq!(x[5], 5);
    buf.trim_head(40);
    assert_eq!(buf.len(), 472);
    let y = buf.header();
    assert_eq!(y[0], 40);
    buf.trim_head(20);
    assert_eq!(buf.len(), 452);

    // Append.
    let mut receive_queue = NetBuffer::new();
    receive_queue.append_buffer(buf);
    assert_eq!(receive_queue.len(), 452);

    // Read.
    let mut dest = [0; 452];
    receive_queue.copy_to_slice(&mut dest);
    for i in 0..452 {
        assert_eq!(dest[i], (i + 60) as u8);
    }

    receive_queue.trim_head(452);
    assert_eq!(receive_queue.len(), 0);
}

#[test]
fn buf_test_transmit_flow() {
    // Run the sequence of operations that happens when transmitting a packet.
    let mut buf = NetBuffer::new();
    let mut data = [0; 512];
    for i in 0..512 {
        data[i] = i as u8;
    }

    buf.append_from_slice(&data);
    assert_eq!(buf.len(), 512);

    // Process protocol layers.
    buf.alloc_header(40);
    assert_eq!(buf.len(), 552);
    let x = buf.header_mut();
    x[0] = 100;
    x[39] = 102;
    buf.alloc_header(20);
    assert_eq!(buf.len(), 572);
    let y = buf.header_mut();
    y[0] = 103;
    y[19] = 104;

    // Transmit.
    let mut out_data = [0; 572];
    buf.copy_to_slice(&mut out_data);
    assert_eq!(out_data[0], 103);
    assert_eq!(out_data[19], 104);
    assert_eq!(out_data[20], 100);
    assert_eq!(out_data[59], 102);
    assert_eq!(out_data[60], 0);
    assert_eq!(out_data[67], 7);
    assert_eq!(out_data[570], 254);
    assert_eq!(out_data[571], 255);
}
