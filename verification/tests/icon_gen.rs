use autokey_rust::ico::{encode_bmp_icon_image, encode_ico_images, IcoImage};
use autokey_rust::icon_gen::generate_ico;

fn expected_pixel(is_running: bool, x: usize, y: usize) -> [u8; 4] {
    let dx = x as f32 - 15.5;
    let dy = y as f32 - 15.5;
    let distance = (dx * dx + dy * dy).sqrt();
    let mut color = if distance <= 14.0 {
        [21, 101, 192, 255]
    } else if distance <= 15.5 {
        [21, 101, 192, ((15.5 - distance) / 1.5 * 255.0) as u8]
    } else {
        [0, 0, 0, 0]
    };
    if distance <= 8.0 {
        color = if is_running { [76, 175, 80, 255] } else { [211, 47, 47, 255] };
    } else if distance <= 9.5 {
        let alpha = ((9.5 - distance) / 1.5 * 255.0) as u8;
        color = [255, 255, 255, alpha.min(color[3])];
    }
    color
}

#[test]
fn program_icon_is_the_disc_with_a_dot() {
    for is_running in [false, true] {
        let mut expected = Vec::new();
        expected.extend_from_slice(&[0, 0, 1, 0, 1, 0]);
        expected.extend_from_slice(&[32, 32, 0, 0, 1, 0, 32, 0]);
        expected.extend_from_slice(&(40u32 + 4096 + 128).to_le_bytes());
        expected.extend_from_slice(&22u32.to_le_bytes());
        expected.extend_from_slice(&40u32.to_le_bytes());
        expected.extend_from_slice(&32i32.to_le_bytes());
        expected.extend_from_slice(&64i32.to_le_bytes());
        expected.extend_from_slice(&[1, 0, 32, 0]);
        expected.extend_from_slice(&0u32.to_le_bytes());
        expected.extend_from_slice(&4096u32.to_le_bytes());
        expected.extend_from_slice(&[0; 16]);
        for y in (0..32).rev() {
            for x in 0..32 {
                let [r, g, b, a] = expected_pixel(is_running, x, y);
                expected.extend_from_slice(&[b, g, r, a]);
            }
        }
        expected.extend_from_slice(&[0; 128]);
        assert_eq!(generate_ico(is_running), expected);
    }
}

#[test]
fn images_are_stored_bottom_up_with_blue_first() {
    let rgba: Vec<u8> = (1..=16).collect();
    let data = encode_bmp_icon_image(2, &rgba);
    assert_eq!(data.len(), 40 + 16 + 8);
    assert_eq!(&data[..12], &[40, 0, 0, 0, 2, 0, 0, 0, 4, 0, 0, 0]);
    assert_eq!(&data[20..24], &[16, 0, 0, 0]);
    assert_eq!(
        &data[40..56],
        &[11, 10, 9, 12, 15, 14, 13, 16, 3, 2, 1, 4, 7, 6, 5, 8]
    );
    assert_eq!(&data[56..], &[0; 8]);
}

#[test]
fn large_sizes_are_given_as_zero() {
    let images = vec![
        IcoImage { size: 256, data: vec![1, 2, 3] },
        IcoImage { size: 300, data: vec![4] },
        IcoImage { size: 255, data: Vec::new() },
    ];
    let file = encode_ico_images(&images);
    assert_eq!(&file[..6], &[0, 0, 1, 0, 3, 0]);
    assert_eq!(&file[6..8], &[0, 0]);
    assert_eq!(&file[22..24], &[0, 0]);
    assert_eq!(&file[38..40], &[255, 255]);
    assert_eq!(&file[14..22], &[3, 0, 0, 0, 54, 0, 0, 0]);
    assert_eq!(&file[30..38], &[1, 0, 0, 0, 57, 0, 0, 0]);
    assert_eq!(&file[46..54], &[0, 0, 0, 0, 58, 0, 0, 0]);
    assert_eq!(&file[54..], &[1, 2, 3, 4]);
}
