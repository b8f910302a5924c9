use photoframe_core::color::Rgb;
use photoframe_core::dither::dither_image;
use photoframe_core::ordered::{bayer_index, BlueNoiseMask};

fn rgb(r: u8, g: u8, b: u8) -> Rgb {
    Rgb { r, g, b }
}

fn in_palette(palette: &[Rgb], px: &[u8]) -> bool {
    palette.iter().any(|c| c.r == px[0] && c.g == px[1] && c.b == px[2])
}

#[test]
fn basic_dither_runs() {
    let mut img = vec![0u8; 16 * 16 * 4];
    // gradient pattern
    for y in 0..16 {
        for x in 0..16 {
            let i = (y * 16 + x) * 4;
            img[i] = (x * 16) as u8;
            img[i + 1] = (y * 16) as u8;
            img[i + 2] = (((x + y) / 2) * 16) as u8;
            img[i + 3] = 255;
        }
    }
    let palette = vec![
        rgb(0, 0, 0),
        rgb(255, 255, 255),
        rgb(255, 0, 0),
        rgb(0, 255, 0),
        rgb(0, 0, 255),
    ];
    dither_image(&mut img, 16, 16, &palette, Some("floyd_steinberg"), None);
    // all pixels should be from palette
    for px in img.chunks_exact(4) {
        assert!(in_palette(&palette, px));
    }
}

#[test]
fn ordered_bayer_runs() {
    let mut img = vec![0u8; 8 * 8 * 4];
    for y in 0..8 {
        for x in 0..8 {
            let i = (y * 8 + x) * 4;
            img[i] = (x * 32) as u8;
            img[i + 1] = (y * 32) as u8;
            img[i + 2] = 128;
            img[i + 3] = 255;
        }
    }
    let palette = vec![rgb(0, 0, 0), rgb(255, 255, 255), rgb(255, 0, 0), rgb(0, 255, 0)];
    dither_image(&mut img, 8, 8, &palette, Some("ordered_bayer_8"), None);
    for px in img.chunks_exact(4) {
        assert!(in_palette(&palette, px));
    }
}

#[test]
fn ordered_stark_runs() {
    let mut img = vec![0u8; 8 * 8 * 4];
    for y in 0..8 {
        for x in 0..8 {
            let i = (y * 8 + x) * 4;
            img[i] = (x * 32) as u8;
            img[i + 1] = (y * 32) as u8;
            img[i + 2] = 180;
            img[i + 3] = 255;
        }
    }
    let palette = vec![rgb(0, 0, 0), rgb(255, 255, 255), rgb(255, 0, 0), rgb(0, 255, 0)];
    dither_image(&mut img, 8, 8, &palette, Some("stark_8"), None);
    for px in img.chunks_exact(4) {
        assert!(in_palette(&palette, px));
    }
}

#[test]
fn ordered_yliluoma_runs() {
    let mut img = vec![0u8; 8 * 8 * 4];
    for y in 0..8 {
        for x in 0..8 {
            let i = (y * 8 + x) * 4;
            img[i] = (x * 32) as u8;
            img[i + 1] = (y * 32) as u8;
            img[i + 2] = 100;
            img[i + 3] = 255;
        }
    }
    let palette = vec![rgb(0, 0, 0), rgb(255, 255, 255), rgb(255, 0, 0), rgb(0, 255, 0)];
    dither_image(&mut img, 8, 8, &palette, Some("yliluoma1_8"), None);
    for px in img.chunks_exact(4) {
        assert!(in_palette(&palette, px));
    }
    dither_image(&mut img, 8, 8, &palette, Some("yliluoma2_8"), None);
    for px in img.chunks_exact(4) {
        assert!(in_palette(&palette, px));
    }
}

#[test]
fn ordered_blue_mask_runs() {
    let mut img = vec![0u8; 32 * 32 * 4];
    for y in 0..32 {
        for x in 0..32 {
            let i = (y * 32 + x) * 4;
            img[i] = (x * 8) as u8;
            img[i + 1] = (y * 8) as u8;
            img[i + 2] = 120;
            img[i + 3] = 255;
        }
    }
    let palette = vec![rgb(0, 0, 0), rgb(255, 255, 255), rgb(255, 0, 0), rgb(0, 255, 0)];
    // The threshold mask the composition root would decode from the
    // embedded asset; any 256x256 gray grid exercises the same path.
    let mut mask_bytes = vec![0u8; 256 * 256];
    for y in 0..256 {
        for x in 0..256 {
            mask_bytes[y * 256 + x] = ((x * 7 + y * 13) % 256) as u8;
        }
    }
    let mask = BlueNoiseMask::new(256, 256, mask_bytes).unwrap();
    dither_image(&mut img, 32, 32, &palette, Some("ordered_blue_256"), Some(&mask));
    for px in img.chunks_exact(4) {
        assert!(in_palette(&palette, px));
    }
}

#[test]
fn empty_palette_is_a_no_op() {
    let mut img = vec![10u8, 20, 30, 40, 50, 60, 70, 80];
    let before = img.clone();
    let palette: Vec<Rgb> = Vec::new();
    dither_image(&mut img, 2, 1, &palette, Some("floyd_steinberg"), None);
    assert_eq!(img, before);
}

#[test]
fn empty_buffer_is_a_no_op() {
    let mut img: Vec<u8> = Vec::new();
    let palette = vec![rgb(0, 0, 0)];
    dither_image(&mut img, 0, 0, &palette, Some("atkinson"), None);
    assert!(img.is_empty());
}

#[test]
fn names_match_up_to_case_and_hyphens() {
    let palette = vec![rgb(0, 0, 0), rgb(255, 255, 255), rgb(200, 30, 90)];
    let mut a = vec![0u8; 8 * 8 * 4];
    for (i, v) in a.iter_mut().enumerate() {
        *v = ((i * 37) % 251) as u8;
    }
    let mut b = a.clone();
    dither_image(&mut a, 8, 8, &palette, Some("ordered_bayer_4"), None);
    dither_image(&mut b, 8, 8, &palette, Some("ORDERED-BAYER-4"), None);
    assert_eq!(a, b);
}

#[test]
fn unrecognized_name_maps_to_nearest() {
    // A red-dominant pixel is closer in luma to black than to red, and
    // the dead-zone tie-break never fires here.
    let palette = vec![rgb(0, 0, 0), rgb(255, 0, 0)];
    let mut img = vec![100u8, 0, 0, 200];
    dither_image(&mut img, 1, 1, &palette, Some("something_else"), None);
    assert_eq!(img, vec![0u8, 0, 0, 200]);
}

#[test]
fn alpha_bytes_survive_every_algorithm() {
    let palette = vec![rgb(0, 0, 0), rgb(255, 255, 255), rgb(40, 90, 200)];
    let names = [
        "floyd_steinberg",
        "jarvis_judice_ninke",
        "stucki",
        "burkes",
        "sierra_3",
        "sierra_2",
        "sierra_1",
        "atkinson",
        "reduced_atkinson",
        "ordered_bayer_2",
        "ordered_bayer_4",
        "ordered_bayer_8",
        "stark_8",
        "yliluoma1_8",
        "yliluoma2_8",
        "nope",
    ];
    for name in names {
        let mut img = vec![0u8; 4 * 4 * 4];
        for y in 0..4 {
            for x in 0..4 {
                let i = (y * 4 + x) * 4;
                img[i] = (x * 60) as u8;
                img[i + 1] = (y * 60) as u8;
                img[i + 2] = 77;
                img[i + 3] = (i % 256) as u8;
            }
        }
        let alphas: Vec<u8> = img.chunks_exact(4).map(|p| p[3]).collect();
        dither_image(&mut img, 4, 4, &palette, Some(name), None);
        let after: Vec<u8> = img.chunks_exact(4).map(|p| p[3]).collect();
        assert_eq!(alphas, after, "alpha changed under {}", name);
        for px in img.chunks_exact(4) {
            assert!(in_palette(&palette, px), "non-palette pixel under {}", name);
        }
    }
}

#[test]
fn bayer_matrix_values_match_the_tables() {
    // Spot checks against the standard index tables.
    assert_eq!(bayer_index(2, 0, 0), 0);
    assert_eq!(bayer_index(2, 1, 0), 2);
    assert_eq!(bayer_index(2, 0, 1), 3);
    assert_eq!(bayer_index(2, 1, 1), 1);
    assert_eq!(bayer_index(4, 2, 3), 13);
    assert_eq!(bayer_index(4, 1, 1), 4);
    assert_eq!(bayer_index(4, 3, 0), 10);
    assert_eq!(bayer_index(8, 1, 0), 32);
    assert_eq!(bayer_index(8, 0, 4), 3);
    assert_eq!(bayer_index(8, 7, 7), 21);
    assert_eq!(bayer_index(8, 4, 2), 14);
    // Tiling by modulo.
    assert_eq!(bayer_index(8, 9, 8), bayer_index(8, 1, 0));
}

#[test]
fn diffusion_is_idempotent_on_palette_input() {
    // A buffer that already holds only palette colors diffuses to
    // itself: every residual is zero, so nothing propagates; a second
    // pass over its own output is likewise the identity.
    let palette = vec![rgb(0, 0, 0), rgb(255, 255, 255), rgb(255, 0, 0)];
    let mut img = Vec::new();
    for i in 0..(6 * 4) {
        let c = palette[i % 3];
        img.extend_from_slice(&[c.r, c.g, c.b, (i * 11 % 256) as u8]);
    }
    let first = img.clone();
    dither_image(&mut img, 6, 4, &palette, Some("floyd_steinberg"), None);
    assert_eq!(img, first);
    // A gradient settles after one pass: the output is palette-exact,
    // so a second pass leaves it alone.
    let mut grad = vec![0u8; 8 * 8 * 4];
    for (i, v) in grad.iter_mut().enumerate() {
        *v = ((i * 29) % 251) as u8;
    }
    dither_image(&mut grad, 8, 8, &palette, Some("stucki"), None);
    let once = grad.clone();
    dither_image(&mut grad, 8, 8, &palette, Some("stucki"), None);
    assert_eq!(grad, once);
}

#[test]
fn diffusion_names_match_up_to_case_and_hyphens() {
    let palette = vec![rgb(0, 0, 0), rgb(255, 255, 255), rgb(90, 200, 40)];
    let mut a = vec![0u8; 8 * 8 * 4];
    for (i, v) in a.iter_mut().enumerate() {
        *v = ((i * 41) % 249) as u8;
    }
    let b0 = a.clone();
    let mut b = a.clone();
    let mut c = b0.clone();
    dither_image(&mut a, 8, 8, &palette, Some("floyd_steinberg"), None);
    dither_image(&mut b, 8, 8, &palette, Some("Floyd-Steinberg"), None);
    dither_image(&mut c, 8, 8, &palette, Some("floyd_steinberg"), None);
    assert_eq!(a, b);
    // Equal inputs give byte-identical outputs.
    assert_eq!(a, c);
}

#[test]
fn mixing_plan_names_and_reruns_are_deterministic() {
    // The mixing-plan dither is a pure function of its inputs: equal
    // calls agree byte for byte, and so do name variants.
    let palette = vec![rgb(0, 0, 0), rgb(255, 255, 255), rgb(200, 40, 120)];
    let mut a = vec![0u8; 8 * 8 * 4];
    for (i, v) in a.iter_mut().enumerate() {
        *v = ((i * 59) % 247) as u8;
    }
    let mut b = a.clone();
    let mut c = a.clone();
    dither_image(&mut a, 8, 8, &palette, Some("yliluoma2_8"), None);
    dither_image(&mut b, 8, 8, &palette, Some("YLILUOMA2-8"), None);
    dither_image(&mut c, 8, 8, &palette, Some("yliluoma2_8"), None);
    assert_eq!(a, b);
    assert_eq!(a, c);
}

#[test]
fn blue_noise_without_a_mask_falls_back_to_nearest() {
    // Selecting the blue-noise algorithm with no injected mask performs
    // the plain nearest mapping.
    let palette = vec![rgb(0, 0, 0), rgb(255, 0, 0)];
    let mut img = vec![100u8, 0, 0, 77];
    dither_image(&mut img, 1, 1, &palette, Some("ordered_blue_256"), None);
    assert_eq!(img, vec![0u8, 0, 0, 77]);
}
