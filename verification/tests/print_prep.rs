use proxynexus::print_prep::{max_upscale_size, BleedConfig};

#[test]
fn test_border_config_calculation() {
    let config = BleedConfig::calculate(744, 1038);
    assert_eq!(config.output_width, 816);
    assert_eq!(config.output_height, 1110);
    assert_eq!(config.bleed_x, 36);
    assert_eq!(config.bleed_y, 36);

    let config = BleedConfig::calculate(1461, 2076);
    assert_eq!(config.output_width, 1632);
    assert_eq!(config.output_height, 2220);
    assert_eq!(config.bleed_x, 85);
    assert_eq!(config.bleed_y, 72);

    let config = BleedConfig::calculate(744, 1031);
    assert_eq!(config.output_width, 816);
    assert_eq!(config.output_height, 1110);
    assert_eq!(config.bleed_x, 36);
    assert_eq!(config.bleed_y, 39);

    let config = BleedConfig::calculate(481, 669);
    assert_eq!(config.output_width, 528);
    assert_eq!(config.output_height, 718);
    assert_eq!(config.bleed_x, 23);
    assert_eq!(config.bleed_y, 24);
}

/// What the upscaler does with the size this hands it.
fn cap(w: u32, h: u32, max: (u32, u32)) -> (u32, u32) {
    let scale = (max.0 as f32 / w as f32).min(max.1 as f32 / h as f32);
    if scale >= 1.0 {
        return (w, h);
    }
    ((w as f32 * scale).round() as u32, (h as f32 * scale).round() as u32)
}

#[test]
fn a_bled_source_is_capped_at_the_full_bleed_size() {
    assert_eq!(max_upscale_size(true), (2176, 2960));
}

#[test]
fn an_unbled_source_is_capped_at_that_outputs_cut_area() {
    assert_eq!(max_upscale_size(false), (1984, 2768));
}

#[test]
fn a_source_that_already_fits_is_left_alone() {
    assert_eq!(cap(1568, 2140, max_upscale_size(true)), (1568, 2140));
    assert_eq!(cap(1632, 2220, max_upscale_size(true)), (1632, 2220));
}

#[test]
fn a_uniform_bleed_adds_the_border_on_every_side() {
    let config = BleedConfig::uniform(744, 1038, 36);
    assert_eq!(config.output_width, 816);
    assert_eq!(config.output_height, 1110);
    assert_eq!(config.bleed_x, 36);
    assert_eq!(config.bleed_y, 36);
}

#[test]
fn a_cut_size_source_at_twice_the_resolution_gets_twice_the_bleed() {
    let config = BleedConfig::calculate(1488, 2076);
    assert_eq!(config.output_width, 1632);
    assert_eq!(config.output_height, 2220);
    assert_eq!(config.bleed_x, 72);
    assert_eq!(config.bleed_y, 72);
}

use proxynexus::print_prep::generate_bleed;

#[test]
fn uniform_bleed_repeats_the_edge_pixels() {
    // A 2 x 1 image: red then blue.
    let src = vec![255, 0, 0, 0, 0, 255];
    let config = BleedConfig::uniform(2, 1, 1);
    let out = generate_bleed(&src, 2, 1, &config);
    assert_eq!(config.output_width, 4);
    assert_eq!(config.output_height, 3);
    assert_eq!(out.len(), 4 * 3 * 3);
    let row: Vec<u8> = vec![255, 0, 0, 255, 0, 0, 0, 0, 255, 0, 0, 255];
    assert_eq!(&out[0..12], row.as_slice());
    assert_eq!(&out[12..24], row.as_slice());
    assert_eq!(&out[24..36], row.as_slice());
}

#[test]
fn the_bled_image_holds_the_source_at_its_offset() {
    let src: Vec<u8> = (0..(3 * 2 * 3)).map(|v| v as u8).collect();
    let config = BleedConfig::calculate(3, 2);
    let out = generate_bleed(&src, 3, 2, &config);
    let ow = config.output_width as usize;
    for y in 0..2usize {
        for x in 0..3usize {
            for c in 0..3usize {
                let dest = ((y + config.bleed_y as usize) * ow + x + config.bleed_x as usize) * 3 + c;
                assert_eq!(out[dest], src[(y * 3 + x) * 3 + c]);
            }
        }
    }
}
