use hydro_strike::channelizer::{Channelizer, ComplexI8, FilterBank, SlidingWindow};

#[test]
fn convert_subfilter() {
    let channel = 3;
    let m = 2;
    let filter: Vec<i32> = vec![1, 2, 3, 4, 5, 6, 7, 8, 9, 10, 11, 12, 13];

    let filter_bank = FilterBank::from_filter(&filter, channel, m);

    assert_eq!(
        filter_bank.subfilters,
        vec![vec![10, 7, 4, 1], vec![11, 8, 5, 2], vec![12, 9, 6, 3]]
    );
}

#[test]
fn sliding_window() {
    let mut window = SlidingWindow::new(8);

    assert_eq!(window.len, 8);
    assert_eq!(window.offset, 16);
    assert_eq!(window.current_pos, 0);
    assert_eq!(window.r, vec![0; 23]);
    assert_eq!(window.i, vec![0; 23]);

    window.push(ComplexI8 { re: 7, im: -3 });
    assert_eq!(window.current_pos, 1);
    assert_eq!(window.r[8], 7);
    assert_eq!(window.i[8], -3);

    window.push(ComplexI8 { re: 2, im: 4 });
    assert_eq!(window.current_pos, 2);
    assert_eq!(window.r[9], 2);
    assert_eq!(window.i[9], 4);

    // The contiguous read of the eight most recent samples starts at the
    // cursor.
    assert_eq!(&window.r[2..10], &[0, 0, 0, 0, 0, 0, 7, 2]);
    assert_eq!(&window.i[2..10], &[0, 0, 0, 0, 0, 0, -3, 4]);
}

#[test]
fn sliding_window_wraps() {
    let mut window = SlidingWindow::new(8);

    // Sixteen pushes wrap the cursor back to zero; the most recent eight
    // samples must still be contiguous at the head.
    for v in 0..16 {
        window.push(ComplexI8 { re: v as i8, im: 0 });
    }
    assert_eq!(window.current_pos, 0);
    assert_eq!(&window.r[0..8], &[8, 9, 10, 11, 12, 13, 14, 15]);
}

#[test]
fn window_filter_dot_product() {
    let mut window = SlidingWindow::new(4);
    window.push(ComplexI8 { re: 1, im: 0 });
    window.push(ComplexI8 { re: 2, im: -1 });
    window.push(ComplexI8 { re: 3, im: 0 });
    window.push(ComplexI8 { re: 4, im: 2 });

    // window samples oldest first: [1, 2, 3, 4]
    let filter: Vec<i32> = vec![256, 256, 256, 256];
    let out = window.apply_filter(&filter);
    assert_eq!(out.re, (1 + 2 + 3 + 4) * 256 >> 8);
    assert_eq!(out.im, (-1 + 2) * 256 >> 8);

    let filter: Vec<i32> = vec![0, 0, 0, 512];
    let out = window.apply_filter(&filter);
    assert_eq!(out.re, 8);
    assert_eq!(out.im, 4);
}

#[test]
fn channelize_counts() {
    let channel = 4;
    let m = 2;
    // all-pass taps: every arm becomes [256, 256, 256, 256]
    let filter: Vec<i32> = vec![256; 2 * m * channel + 1];

    let mut magic = Channelizer::new(channel, m, &filter);

    let block = [ComplexI8 { re: 3, im: -4 }, ComplexI8 { re: 5, im: 6 }];
    let out = magic.channelize(&block);
    assert_eq!(out.len(), 4);

    // The first half-block feeds windows 1 and 0, newest sample last:
    // window 1 holds input 0, window 0 holds input 1.
    assert_eq!((out[0].re, out[0].im), (5, 6));
    assert_eq!((out[1].re, out[1].im), (3, -4));
    assert_eq!((out[2].re, out[2].im), (0, 0));
    assert_eq!((out[3].re, out[3].im), (0, 0));

    let out = magic.channelize(&block);
    assert_eq!(out.len(), 4);
}

#[test]
fn channelize_all_counts() {
    let channel = 4;
    let m = 2;
    let filter: Vec<i32> = vec![256; 2 * m * channel + 1];

    let mut magic = Channelizer::new(channel, m, &filter);

    // K half-blocks of N/2 samples produce K * N output values.
    let input = vec![ComplexI8 { re: 1, im: 1 }; 10];
    let out = magic.channelize_all(&input);
    assert_eq!(out.len(), 10 / 2 * 4);
}
