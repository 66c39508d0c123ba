use cadverse::triple_buffer::{Clearable, SimIoBuf, SimOut, TripleBuffer};

#[test]
fn new_buffer_reads_slot_one() {
    let (buf, reader, _writer, _swapper) = TripleBuffer::new([10u32, 11, 12]);
    assert_eq!(*reader.read(&buf), 11);
}

#[test]
fn write_is_hidden_until_swap() {
    let (mut buf, reader, mut writer, swapper) = TripleBuffer::new([0u32, 0, 0]);
    *writer.write(&mut buf) = 7;
    assert_eq!(*reader.read(&buf), 0);
    swapper.swap(&mut buf);
    assert_eq!(*reader.read(&buf), 7);
}

#[test]
fn read_after_publish_gives_last_write() {
    let (mut buf, reader, mut writer, swapper) = TripleBuffer::new([0u32, 0, 0]);
    for v in 1..20u32 {
        *writer.write(&mut buf) = v;
        swapper.swap(&mut buf);
        assert_eq!(*reader.read(&buf), v);
    }
}

#[test]
fn three_swaps_return_to_start() {
    let (mut buf, reader, mut writer, swapper) = TripleBuffer::new([100u32, 101, 102]);
    let before_read = *reader.read(&buf);
    let before_write = *writer.write(&mut buf);
    swapper.swap(&mut buf);
    swapper.swap(&mut buf);
    swapper.swap(&mut buf);
    assert_eq!(*reader.read(&buf), before_read);
    assert_eq!(*writer.write(&mut buf), before_write);
}

#[test]
fn swap_rotates_slots() {
    let (mut buf, reader, mut writer, swapper) = TripleBuffer::new([100u32, 101, 102]);
    // write = 0, fresh = 1, spare = 2
    swapper.swap(&mut buf);
    assert_eq!(*reader.read(&buf), 100);
    assert_eq!(*writer.write(&mut buf), 102);
    swapper.swap(&mut buf);
    assert_eq!(*reader.read(&buf), 102);
    assert_eq!(*writer.write(&mut buf), 101);
}

#[test]
fn swap_and_clear_publishes_and_empties_write_slot() {
    let (mut buf, reader, mut writer, swapper) = TripleBuffer::new([vec![1u8], vec![2u8], vec![3u8, 4]]);
    writer.write(&mut buf).push(9);
    swapper.swap_and_clear(&mut buf);
    assert_eq!(reader.read(&buf), &vec![1u8, 9]);
    assert!(writer.write(&mut buf).is_empty());
}

#[test]
fn clear_and_init_publishes_init() {
    let (mut userin, userin_r, mut userin_w, userin_swap) = TripleBuffer::new([vec![1u32], vec![2u32], vec![3u32]]);
    let (mut simout, simout_r, simout_w, simout_swap) = TripleBuffer::new([vec![0u32], vec![0u32], vec![0u32]]);
    userin_w.write(&mut userin).push(5);
    let mut io = SimIoBuf { userin_r, userin_swap, simout_w, simout_swap };
    io.clear_and_init(&mut userin, &mut simout, vec![42u32, 43]);
    assert_eq!(io.userin_r.read(&userin), &vec![1u32, 5]);
    assert!(userin_w.write(&mut userin).is_empty());
    assert_eq!(simout_r.read(&simout), &vec![42u32, 43]);
}

#[test]
fn clearing_sim_out_keeps_timestamp() {
    let mut out = SimOut { timestamp: 2.5f64, objects: vec![1u32, 2, 3] };
    out.clear();
    assert_eq!(out.timestamp, 2.5);
    assert!(out.objects.is_empty());
}

#[test]
fn swap_and_clear_keeps_spare_timestamp() {
    let slot = |t: f64, o: u32| SimOut { timestamp: t, objects: vec![o] };
    let (mut buf, reader, mut writer, swapper) = TripleBuffer::new([slot(0.0, 0), slot(1.0, 1), slot(2.0, 2)]);
    let w = writer.write(&mut buf);
    w.timestamp = 3.0;
    w.objects.push(30);
    swapper.swap_and_clear(&mut buf);
    let r = reader.read(&buf);
    assert_eq!(r.timestamp, 3.0);
    assert_eq!(r.objects, vec![0u32, 30]);
    let w = writer.write(&mut buf);
    assert_eq!(w.timestamp, 2.0);
    assert!(w.objects.is_empty());
}

#[test]
fn clear_and_init_keeps_old_fresh_as_spare() {
    let (mut userin, userin_r, userin_w, userin_swap) = TripleBuffer::new([vec![1u32], vec![2u32], vec![3u32]]);
    let (mut simout, simout_r, simout_w, simout_swap) = TripleBuffer::new([vec![0u32], vec![7u32], vec![8u32]]);
    let mut io = SimIoBuf { userin_r, userin_swap, simout_w, simout_swap };
    io.clear_and_init(&mut userin, &mut simout, vec![42u32]);
    // two further swaps bring the old fresh slot back to the reader
    io.userin_swap.swap(&mut userin);
    io.userin_swap.swap(&mut userin);
    assert_eq!(io.userin_r.read(&userin), &vec![2u32]);
    io.simout_swap.swap(&mut simout);
    io.simout_swap.swap(&mut simout);
    assert_eq!(simout_r.read(&simout), &vec![7u32]);
    let _ = userin_w;
}
