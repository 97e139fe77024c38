use image::codecs::png::filter::{filter, filter_paeth, unfilter, FilterType};

const ALL: [FilterType; 5] =
    [FilterType::NoFilter, FilterType::Sub, FilterType::Up, FilterType::Avg, FilterType::Paeth];

#[test]
fn paeth_picks_the_nearest_neighbor() {
    assert_eq!(filter_paeth(0, 0, 0), 0);
    assert_eq!(filter_paeth(10, 20, 30), 10);
    assert_eq!(filter_paeth(10, 20, 10), 20);
    assert_eq!(filter_paeth(10, 20, 20), 10);
    assert_eq!(filter_paeth(100, 50, 60), 100);
    assert_eq!(filter_paeth(50, 100, 60), 100);
    assert_eq!(filter_paeth(200, 200, 100), 200);
    assert_eq!(filter_paeth(1, 2, 200), 1);
    assert_eq!(filter_paeth(255, 255, 0), 255);
    assert_eq!(filter_paeth(0, 255, 255), 0);
    assert_eq!(filter_paeth(7, 0, 0), 7);
    assert_eq!(filter_paeth(0, 7, 0), 7);
    assert_eq!(filter_paeth(3, 9, 6), 6);
}

#[test]
fn sub_filter() {
    let previous = [0u8; 6];
    let mut row = [10u8, 20, 30, 15, 20, 250];
    filter(FilterType::Sub, 3, &previous, &mut row);
    assert_eq!(row, [10, 20, 30, 5, 0, 220]);
    unfilter(FilterType::Sub, 3, &previous, &mut row);
    assert_eq!(row, [10, 20, 30, 15, 20, 250]);
    let mut row = [1u8, 0];
    filter(FilterType::Sub, 1, &previous, &mut row);
    assert_eq!(row, [1, 255]);
}

#[test]
fn up_filter() {
    let previous = [1u8, 2, 3, 255];
    let mut row = [5u8, 1, 3, 4];
    filter(FilterType::Up, 2, &previous, &mut row);
    assert_eq!(row, [4, 255, 0, 5]);
    unfilter(FilterType::Up, 2, &previous, &mut row);
    assert_eq!(row, [5, 1, 3, 4]);
}

#[test]
fn average_filter() {
    let previous = [10u8, 255, 7, 0];
    let mut row = [100u8, 255, 50, 3];
    filter(FilterType::Avg, 2, &previous, &mut row);
    // 100 - 10/2, 255 - 255/2, 50 - (100 + 7)/2, 3 - (255 + 0)/2
    assert_eq!(row, [95, 128, 253, 132]);
    unfilter(FilterType::Avg, 2, &previous, &mut row);
    assert_eq!(row, [100, 255, 50, 3]);
}

#[test]
fn paeth_filter() {
    let previous = [10u8, 20, 30, 40];
    let mut row = [12u8, 18, 33, 41];
    filter(FilterType::Paeth, 1, &previous, &mut row);
    // predictions: paeth(0,10,0) = 10; paeth(12,20,10) = 20; paeth(18,30,20) = 30;
    // paeth(33,40,30) = 40
    assert_eq!(row, [2, 254, 3, 1]);
    unfilter(FilterType::Paeth, 1, &previous, &mut row);
    assert_eq!(row, [12, 18, 33, 41]);
}

#[test]
fn no_filter_changes_nothing() {
    let previous = [9u8; 3];
    let mut row = [1u8, 2, 3];
    filter(FilterType::NoFilter, 1, &previous, &mut row);
    assert_eq!(row, [1, 2, 3]);
    unfilter(FilterType::NoFilter, 1, &previous, &mut row);
    assert_eq!(row, [1, 2, 3]);
}

#[test]
fn every_filter_can_be_undone() {
    let previous: Vec<u8> = (0..40).map(|i| (i * 37 % 256) as u8).collect();
    let line: Vec<u8> = (0..40).map(|i| (i * i * 11 % 256) as u8).collect();
    for f in ALL {
        for bpp in 1..5 {
            let mut row = line.clone();
            filter(f, bpp, &previous, &mut row);
            unfilter(f, bpp, &previous, &mut row);
            assert_eq!(row, line);
            let mut row = line.clone();
            unfilter(f, bpp, &previous, &mut row);
            filter(f, bpp, &previous, &mut row);
            assert_eq!(row, line);
        }
    }
}

#[test]
fn empty_scanline() {
    let mut row: [u8; 0] = [];
    for f in ALL {
        filter(f, 4, &[], &mut row);
        unfilter(f, 4, &[], &mut row);
    }
}
