use folderplay::palette::{background_css, extract_palette, median_cut, sample_colours};

#[test]
fn colours_are_cut_at_the_widest_channel() {
    let colours = vec![(0, 0, 0), (10, 0, 0), (200, 0, 0), (220, 0, 10)];
    assert_eq!(median_cut(colours.clone(), 1), Some(vec![(107, 0, 2)]));
    assert_eq!(median_cut(colours.clone(), 0), Some(vec![(107, 0, 2)]));
    assert_eq!(median_cut(colours.clone(), 2), Some(vec![(5, 0, 0), (210, 0, 5)]));
    assert_eq!(median_cut(colours, 3), Some(vec![(5, 0, 0), (200, 0, 0), (220, 0, 10)]));
    assert_eq!(median_cut(Vec::new(), 3), None);
}

#[test]
fn groups_of_one_colour_can_run_empty() {
    assert_eq!(median_cut(vec![(9, 9, 9)], 3), Some(vec![(9, 9, 9)]));
    assert_eq!(median_cut(vec![(1, 1, 1); 3], 3), Some(vec![(1, 1, 1), (1, 1, 1)]));
}

#[test]
fn pictures_are_sampled() {
    let mut data = Vec::new();
    for y in 0..2u8 {
        for x in 0..3u8 {
            data.extend_from_slice(&[x, y, 7, 255]);
        }
        data.extend_from_slice(&[99, 99]);
    }
    let all = sample_colours(&data, 14, 3, 2);
    assert_eq!(all, vec![(0, 0, 7), (1, 0, 7), (2, 0, 7), (0, 1, 7), (1, 1, 7), (2, 1, 7)]);
    let cut = sample_colours(&data[..17].to_vec(), 14, 3, 2);
    assert_eq!(cut, vec![(0, 0, 7), (1, 0, 7), (2, 0, 7), (0, 1, 7)]);
    let wide = vec![5u8; 130 * 4];
    assert_eq!(sample_colours(&wide, 520, 130, 1).len(), 65);
    assert_eq!(extract_palette(&data, 14, 0, 2, 3), None);
    assert_eq!(extract_palette(&data, 14, 3, 0, 3), None);
    assert_eq!(extract_palette(&Vec::new(), 14, 3, 2, 3), None);
    assert_eq!(extract_palette(&data, 14, 3, 2, 1), Some(vec![(1, 0, 7)]));
}

#[test]
fn backgrounds_of_three_colours() {
    let c = Some(vec![(1, 2, 3), (40, 50, 60), (255, 0, 9)]);
    assert_eq!(
        background_css(&c),
        ".album-bg {background:linear-gradient(127deg,rgba(1,2,3,0.55),rgba(1,2,3,0.0) 70.71%),\
         linear-gradient(217deg,rgba(40,50,60,0.55),rgba(40,50,60,0.0) 70.71%),\
         linear-gradient(336deg,rgba(255,0,9,0.55),rgba(255,0,9,0.0) 70.71%);}"
    );
    assert_eq!(background_css(&Some(vec![(1, 2, 3), (4, 5, 6)])), "");
    assert_eq!(background_css(&None), "");
}
