use gs_rust::utils::{debug_memory, invert_row, SIGN_BIT};

fn bits(m: [f32; 16]) -> [u32; 16] {
    m.map(|x| x.to_bits())
}

#[test]
fn invert_row_negates_one_row() {
    let m: [f32; 16] = core::array::from_fn(|k| k as f32 + 1.0);
    let mut b = bits(m);
    invert_row(&mut b, 1);
    for k in 0..16 {
        let v = f32::from_bits(b[k]);
        if k % 4 == 1 {
            assert_eq!(v, -m[k]);
        } else {
            assert_eq!(v, m[k]);
        }
    }
}

#[test]
fn invert_row_twice_restores() {
    let mut b: [u32; 16] = core::array::from_fn(|k| (k as u32) * 12345);
    let before = b;
    invert_row(&mut b, 3);
    assert_ne!(b, before);
    invert_row(&mut b, 3);
    assert_eq!(b, before);
    assert_eq!(SIGN_BIT, 1u32 << 31);
}

#[test]
fn debug_memory_does_nothing_here() {
    debug_memory("frame");
}
