use sftrace::arch::{aarch64, write_image, x86_64, PatchError};

const NOP: u8 = 0x90;

#[test]
fn patch_decode_single_entry_sled_x86_64() {
    let mut sled = vec![NOP; 16];
    x86_64::patch_entry(&mut sled, 0x1000, 5, 0x3000).unwrap();
    // The displacement is 0x3000 - (0x1000 + 11) = 0x1ff5.
    assert_eq!(&sled[..11], &[0x41, 0xba, 0x05, 0x00, 0x00, 0x00, 0xe8, 0xf5, 0x1f, 0x00, 0x00]);
    assert_eq!(&sled[11..], &[NOP; 5]);
}

#[test]
fn patch_exit_sled_x86_64_jumps() {
    let mut sled = vec![NOP; 11];
    x86_64::patch_exit(&mut sled, 0x1000, 0x0100_0002, 0x3000).unwrap();
    assert_eq!(sled, vec![0x41, 0xba, 0x02, 0x00, 0x00, 0x01, 0xe9, 0xf5, 0x1f, 0x00, 0x00]);
}

#[test]
fn patch_tailcall_sled_x86_64_calls() {
    let mut entry = vec![NOP; 11];
    let mut tail = vec![NOP; 11];
    x86_64::patch_entry(&mut entry, 0x7000, 9, 0x6000).unwrap();
    x86_64::patch_tailcall(&mut tail, 0x7000, 9, 0x6000).unwrap();
    assert_eq!(entry, tail);
    assert_eq!(tail[6], 0xe8);
}

#[test]
fn patch_sled_x86_64_backward_displacement() {
    let mut sled = vec![NOP; 11];
    x86_64::patch_entry(&mut sled, 0x3000, 1, 0x1000).unwrap();
    let displacement = i32::from_le_bytes([sled[7], sled[8], sled[9], sled[10]]);
    assert_eq!(displacement as i64, 0x1000 - (0x3000 + 11));
}

#[test]
fn patch_sled_x86_64_reach() {
    let address: u64 = 0x1_0000_0000;
    let end = address + 11;
    let mut sled = vec![NOP; 11];
    assert!(x86_64::patch_entry(&mut sled, address, 1, end + 0x7fff_ffff).is_ok());
    assert_eq!(&sled[7..], &0x7fff_ffffi32.to_le_bytes());
    assert!(x86_64::patch_entry(&mut sled, address, 1, end - 0x8000_0000).is_ok());
    assert_eq!(&sled[7..], &i32::MIN.to_le_bytes());

    let mut sled = vec![NOP; 11];
    assert_eq!(
        x86_64::patch_entry(&mut sled, address, 1, end + 0x8000_0000),
        Err(PatchError::DisplacementOutOfRange)
    );
    assert_eq!(sled, vec![NOP; 11]);
    assert_eq!(
        x86_64::patch_exit(&mut sled, address, 1, end - 0x8000_0001),
        Err(PatchError::DisplacementOutOfRange)
    );
    assert_eq!(sled, vec![NOP; 11]);
    assert_eq!(
        x86_64::patch_entry(&mut sled, u64::MAX, 1, 0),
        Err(PatchError::DisplacementOutOfRange)
    );
}

#[test]
fn patching_twice_gives_the_same_bytes() {
    let mut once = vec![NOP; 16];
    x86_64::patch_entry(&mut once, 0x1000, 5, 0x3000).unwrap();
    let mut twice = once.clone();
    x86_64::patch_entry(&mut twice, 0x1000, 5, 0x3000).unwrap();
    assert_eq!(once, twice);

    let mut once = vec![0x1f; 40];
    aarch64::patch_entry(&mut once, 0x1000, 5, 0x3000).unwrap();
    let mut twice = once.clone();
    aarch64::patch_entry(&mut twice, 0x1000, 5, 0x3000).unwrap();
    assert_eq!(once, twice);
}

#[test]
fn patch_slot_x86_64() {
    let mut slot = vec![0xc3];
    slot.extend_from_slice(&[NOP; 15]);
    x86_64::patch_slot(&mut slot, 0x1122_3344_5566_7788);
    assert_eq!(
        slot,
        vec![
            0x3e, 0xff, 0x25, 0x01, 0x00, 0x00, 0x00, 0xcc, 0x88, 0x77, 0x66, 0x55, 0x44, 0x33,
            0x22, 0x11
        ]
    );
}

fn words(bytes: &[u8]) -> Vec<u32> {
    bytes.chunks(4).map(|w| u32::from_le_bytes([w[0], w[1], w[2], w[3]])).collect()
}

#[test]
fn patch_sled_aarch64_forward() {
    let mut sled = vec![0u8; 32];
    aarch64::patch_entry(&mut sled, 0x1000, 5, 0x3000).unwrap();
    // bl at 0x1008, 0x1ff8 bytes before the trampoline: 0x7fe instructions.
    assert_eq!(
        words(&sled),
        vec![
            0xa9bf_7be0,
            0x1800_0071,
            0x9400_07fe,
            0x1400_0004,
            5,
            0xd503_201f,
            0xd503_201f,
            0xa8c1_7be0
        ]
    );
}

#[test]
fn patch_sled_aarch64_backward() {
    let mut sled = vec![0u8; 32];
    aarch64::patch_exit(&mut sled, 0x3000, 7, 0x1000).unwrap();
    // (0x1000 - 0x3008) / 4 = -0x802 in 26 bits.
    assert_eq!(words(&sled)[2], 0x9400_0000 | (0x0400_0000 - 0x802));
    assert_eq!(words(&sled)[4], 7);
    let mut tail = vec![0u8; 32];
    aarch64::patch_tailcall(&mut tail, 0x3000, 7, 0x1000).unwrap();
    assert_eq!(sled, tail);
}

#[test]
fn patch_sled_aarch64_faults() {
    let mut sled = vec![0x11u8; 32];
    assert_eq!(aarch64::patch_sled(&mut sled, 0x1000, 5, 0x3002), Err(PatchError::Misaligned));
    assert_eq!(sled, vec![0x11u8; 32]);
    let at: u64 = 0x1_0000_0000;
    assert_eq!(
        aarch64::patch_sled(&mut sled, at, 5, at + 8 + 0x0800_0000),
        Err(PatchError::DisplacementOutOfRange)
    );
    assert_eq!(
        aarch64::patch_sled(&mut sled, at, 5, at + 8 - 0x0800_0004),
        Err(PatchError::DisplacementOutOfRange)
    );
    assert_eq!(sled, vec![0x11u8; 32]);
    assert!(aarch64::patch_sled(&mut sled, at, 5, at + 8 + 0x07ff_fffc).is_ok());
    assert_eq!(words(&sled)[2], 0x9400_0000 | 0x01ff_ffff);
    assert!(aarch64::patch_sled(&mut sled, at, 5, at + 8 - 0x0800_0000).is_ok());
    assert_eq!(words(&sled)[2], 0x9400_0000 | 0x0200_0000);
}

#[test]
fn patch_slot_aarch64() {
    let mut slot = vec![0u8; 16];
    aarch64::patch_slot(&mut slot, 0x1122_3344_5566_7788);
    assert_eq!(words(&slot[..8]), vec![0x5800_0050, 0xd61f_0200]);
    assert_eq!(&slot[8..], &0x1122_3344_5566_7788u64.to_le_bytes());
}

#[test]
fn write_image_leaves_the_rest() {
    let mut region = vec![1u8, 2, 3, 4, 5, 6];
    write_image(&mut region, &vec![9, 8, 7], 2);
    assert_eq!(region, vec![9, 8, 7, 4, 5, 6]);
    write_image(&mut region, &vec![], 0);
    assert_eq!(region, vec![9, 8, 7, 4, 5, 6]);
}

#[test]
fn saved_block_x86_64() {
    let mut block = Vec::new();
    for n in 1u64..=9 {
        block.extend_from_slice(&(n * 0x0101).to_le_bytes());
    }
    for n in 1u128..=8 {
        block.extend_from_slice(&((n << 100) | n).to_le_bytes());
    }
    assert_eq!(block.len(), x86_64::ARGS_BLOCK_SIZE);
    let args = x86_64::Args::from_block(&block);
    assert_eq!(
        args,
        x86_64::Args {
            r11: 0x0101,
            r10: 0x0202,
            r9: 0x0303,
            r8: 0x0404,
            rcx: 0x0505,
            rsi: 0x0606,
            rdx: 0x0707,
            rax: 0x0808,
            rdi: 0x0909,
            xmm7: (1 << 100) | 1,
            xmm6: (2 << 100) | 2,
            xmm5: (3 << 100) | 3,
            xmm4: (4 << 100) | 4,
            xmm3: (5 << 100) | 5,
            xmm2: (6 << 100) | 6,
            xmm1: (7 << 100) | 7,
            xmm0: (8 << 100) | 8,
        }
    );

    let mut block = Vec::new();
    block.extend_from_slice(&7u64.to_le_bytes());
    block.extend_from_slice(&8u64.to_le_bytes());
    block.extend_from_slice(&(u128::MAX - 1).to_le_bytes());
    block.extend_from_slice(&(1u128 << 64).to_le_bytes());
    assert_eq!(block.len(), x86_64::RETURN_BLOCK_SIZE);
    assert_eq!(
        x86_64::ReturnValue::from_block(&block),
        x86_64::ReturnValue { rax: 7, rdx: 8, xmm0: u128::MAX - 1, xmm1: 1 << 64 }
    );
}

#[test]
fn saved_block_aarch64() {
    let mut block = Vec::new();
    block.extend_from_slice(&8u64.to_le_bytes());
    block.extend_from_slice(&100u64.to_le_bytes());
    for n in [6u128, 7, 4, 5, 2, 3, 0, 1] {
        block.extend_from_slice(&((n << 64) | 0xff).to_le_bytes());
    }
    for n in [7u64, 30, 5, 6, 3, 4, 1, 2] {
        block.extend_from_slice(&n.to_le_bytes());
    }
    assert_eq!(block.len(), aarch64::ARGS_BLOCK_SIZE);
    assert_eq!(
        aarch64::Args::from_block(&block),
        aarch64::Args {
            x8: 8,
            x0: 100,
            q6: (6 << 64) | 0xff,
            q7: (7 << 64) | 0xff,
            q4: (4 << 64) | 0xff,
            q5: (5 << 64) | 0xff,
            q2: (2 << 64) | 0xff,
            q3: (3 << 64) | 0xff,
            q0: 0xff,
            q1: (1 << 64) | 0xff,
            x7: 7,
            x30: 30,
            x5: 5,
            x6: 6,
            x3: 3,
            x4: 4,
            x1: 1,
            x2: 2,
        }
    );
}
