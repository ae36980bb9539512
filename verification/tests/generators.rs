use zknn_circuit::{vgg11, vgg16};

#[test]
fn vgg11_generators_fill_with_two() {
    assert_eq!(vgg11::rand_4d_vec_generator(1, 2, 2, 1), vec![vec![vec![vec![2u8]; 2]; 2]]);
    assert_eq!(vgg11::rand_2d_vec_generator(2, 3), vec![vec![2u8; 3]; 2]);
}

#[test]
fn vgg16_generators_have_the_requested_shape() {
    let t = vgg16::rand_4d_vec_generator(2, 3, 4, 5);
    assert_eq!(t.len(), 2);
    for image in &t {
        assert_eq!(image.len(), 3);
        for plane in image {
            assert_eq!(plane.len(), 4);
            for row in plane {
                assert_eq!(row.len(), 5);
            }
        }
    }
    let m = vgg16::rand_2d_vec_generator(10, 64);
    assert_eq!(m.len(), 10);
    assert!(m.iter().all(|row| row.len() == 64));
    // 640 random bytes are not all equal but with negligible probability.
    let first = m[0][0];
    assert!(m.iter().flatten().any(|&v| v != first));
}
