use dot16::memory::{
    in_memory, sprite_in_memory, tile_in_memory, Memory, MemoryError, MEM_SIZE,
};
use dot16::renderer::{
    frame_fits, get_pixel_color, pixel_in_vram, render_4bit_vram, set_pixel_color, PALETTE,
    VRAM_SIZE,
};
use dot16::rom_loader::{Cartridge, Rom};

fn cartridge_with_data(fill: u8) -> Cartridge {
    let mut stream = vec![fill; 0x4300];
    stream[0] = 1;
    stream[0x42ff] = 2;
    Rom(stream).parse_p8_png()
}

#[test]
fn test_peek_and_poke() {
    let mut memory = Memory::new();
    memory.init(&cartridge_with_data(0)).expect("Failed to load game");
    memory.write(0x1000, 123);
    assert_eq!(memory.mem[0x1000], 123);
    let val: u8 = memory.read(0x1000);
    assert_eq!(val, 123);
}

#[test]
fn test_memset_and_memcpy() {
    let mut memory = Memory::new();
    memory.init(&cartridge_with_data(0)).expect("Failed to load game");
    memory.set(0x1000, 123, 10);
    memory.copy(0x2000, 0x1000, 10);
    assert_eq!(memory.mem[0x1000..0x100a], [123; 0x000a]);
    assert_eq!(memory.mem[0x2000..0x200a], [123; 0x000a]);
    assert_eq!(memory.mem[0x0fff], 0);
    assert_eq!(memory.mem[0x100a], 0);
    assert_eq!(memory.mem[0x1fff], 0);
    assert_eq!(memory.mem[0x200a], 0);
}

#[test]
fn new_memory_is_zero() {
    let memory = Memory::new();
    assert_eq!(memory.mem.len(), 0x10000);
    assert!(memory.mem.iter().all(|b| *b == 0));
}

#[test]
fn init_copies_data_block() {
    let mut memory = Memory::new();
    memory.write(0x4300, 9);
    assert_eq!(memory.init(&cartridge_with_data(0x5a)), Ok(()));
    assert_eq!(memory.read(0), 1);
    assert_eq!(memory.read(1), 0x5a);
    assert_eq!(memory.read(0x42fe), 0x5a);
    assert_eq!(memory.read(0x42ff), 2);
    assert_eq!(memory.read(0x4300), 9);
    assert_eq!(memory.read(0x4301), 0);
}

#[test]
fn init_with_short_data_keeps_the_rest() {
    let mut memory = Memory::new();
    memory.set(0, 7, 16);
    assert_eq!(memory.init(&Cartridge::default()), Ok(()));
    assert_eq!(memory.read(0), 7);
    assert_eq!(memory.read(15), 7);
}

#[test]
fn memory_error_is_comparable() {
    assert_eq!(MemoryError::DataTooLarge, MemoryError::DataTooLarge);
}

#[test]
fn overlapping_copy_moves_old_contents() {
    let mut memory = Memory::new();
    for i in 0..8usize {
        memory.write(0x100 + i, i as u8 + 1);
    }
    memory.copy(0x102, 0x100, 6);
    assert_eq!(memory.mem[0x100..0x108], [1, 2, 1, 2, 3, 4, 5, 6]);
    memory.copy(0x100, 0x101, 7);
    assert_eq!(memory.mem[0x100..0x108], [2, 1, 2, 3, 4, 5, 6, 6]);
    memory.copy(0x200, 0x100, 0);
    assert_eq!(memory.read(0x200), 0);
}

#[test]
fn set_and_copy_reach_the_last_byte() {
    let mut memory = Memory::new();
    memory.set(MEM_SIZE - 4, 0xee, 4);
    assert_eq!(memory.read(0xffff), 0xee);
    assert_eq!(memory.read(0xfffb), 0);
    memory.copy(0, MEM_SIZE - 2, 2);
    assert_eq!(memory.mem[0..3], [0xee, 0xee, 0]);
    memory.set(MEM_SIZE, 1, 0);
}

#[test]
fn sprite_and_map_addresses() {
    let mut memory = Memory::new();
    memory.write(0, 0x11);
    memory.write(4, 0x22);
    memory.write(512 + 8, 0x33);
    assert_eq!(memory.read_sprite(0).len(), 64);
    assert_eq!(memory.read_sprite(0)[0], 0x11);
    assert_eq!(memory.read_sprite(0)[4], 0x22);
    assert_eq!(memory.read_sprite(1)[0], 0x22);
    assert_eq!(memory.read_sprite(18)[0], 0x33);
    memory.write(0x2000 + 3 * 128 + 5, 0x44);
    assert_eq!(memory.read_map_title(5, 3), 0x44);
    memory.write(0x1000 + 32 * 128 + 1, 0x55);
    assert_eq!(memory.read_map_title(1, 32), 0x55);
}

#[test]
fn regions() {
    let mut memory = Memory::new();
    for (i, addr) in [0x3000usize, 0x3100, 0x3200, 0x4300, 0x5600, 0x5e00, 0x5f00, 0x5f80, 0x6000, 0x8000]
        .iter()
        .enumerate()
    {
        memory.write(*addr, i as u8 + 1);
    }
    assert_eq!(memory.sprite_flags().len(), 0x100);
    assert_eq!(memory.sprite_flags()[0], 1);
    assert_eq!(memory.music().len(), 0x101);
    assert_eq!(memory.music()[0], 2);
    assert_eq!(memory.music()[0x100], 3);
    assert_eq!(memory.sound_effects().len(), 0x1101);
    assert_eq!(memory.sound_effects()[0], 3);
    assert_eq!(memory.work_ram().len(), 0x1301);
    assert_eq!(memory.work_ram()[0], 4);
    assert_eq!(memory.font_ram().len(), 0x801);
    assert_eq!(memory.font_ram()[0], 5);
    assert_eq!(memory.cartridge_data().len(), 0x101);
    assert_eq!(memory.cartridge_data()[0], 6);
    assert_eq!(memory.draw_state().len(), 0x41);
    assert_eq!(memory.draw_state()[0], 7);
    assert_eq!(memory.gpio_pins().len(), 0x81);
    assert_eq!(memory.gpio_pins()[0], 8);
    assert_eq!(memory.screen().len(), 0x2001);
    assert_eq!(memory.screen()[0], 9);
    assert_eq!(memory.extended_map().len(), 0x8000);
    assert_eq!(memory.extended_map()[0], 10);
}

#[test]
fn render_two_pixels_per_byte() {
    let vram = [0x12u8, 0xf0];
    let mut frame = vec![0xaau8; 20];
    render_4bit_vram(&vram, &mut frame);
    assert_eq!(frame[0..4], PALETTE[1]);
    assert_eq!(frame[4..8], PALETTE[2]);
    assert_eq!(frame[8..12], [0xFF, 0xCC, 0xAA, 0xFF]);
    assert_eq!(frame[12..16], [0x00, 0x00, 0x00, 0xFF]);
    assert_eq!(frame[16..20], [0xaa; 4]);
}

#[test]
fn render_stops_at_screen_size() {
    assert_eq!(VRAM_SIZE, 16384);
    let vram = vec![0x77u8; 128 * 64 + 5];
    let mut frame = vec![0u8; 4 * VRAM_SIZE + 8];
    render_4bit_vram(&vram, &mut frame);
    assert_eq!(frame[4 * VRAM_SIZE - 4..4 * VRAM_SIZE], PALETTE[7]);
    assert_eq!(frame[4 * VRAM_SIZE..], [0u8; 8]);
    let mut empty: Vec<u8> = Vec::new();
    render_4bit_vram(&[], &mut empty);
    assert!(empty.is_empty());
}

#[test]
fn set_and_get_pixel() {
    let mut vram = vec![0u8; 128 * 64];
    set_pixel_color(&mut vram, 0, 0, 0xa);
    assert_eq!(vram[0], 0xa0);
    assert_eq!(get_pixel_color(&vram, 0, 0), 0xa);
    set_pixel_color(&mut vram, 1, 0, 0x3);
    assert_eq!(vram[0], 0xa3);
    assert_eq!(get_pixel_color(&vram, 1, 0), 0xa3);
    set_pixel_color(&mut vram, 0, 0, 0x1);
    assert_eq!(vram[0], 0x13);
    set_pixel_color(&mut vram, 127, 127, 0xf);
    assert_eq!(vram[128 * 64 - 1], 0x0f);
    set_pixel_color(&mut vram, 2, 1, 0x5);
    assert_eq!(vram[65], 0x50);
}

#[test]
fn set_pixel_ignores_bad_arguments() {
    let mut vram = vec![0x11u8; 4];
    set_pixel_color(&mut vram, 128, 0, 1);
    set_pixel_color(&mut vram, 0, 128, 1);
    set_pixel_color(&mut vram, 0, 0, 0x10);
    assert_eq!(vram, vec![0x11u8; 4]);
}

#[test]
fn bounds_of_memory() {
    assert!(in_memory(0, 0x10000));
    assert!(in_memory(0x10000, 0));
    assert!(in_memory(0xffff, 1));
    assert!(!in_memory(0xffff, 2));
    assert!(!in_memory(0x10001, 0));
    assert!(!in_memory(usize::MAX, 1));
    assert!(!in_memory(1, usize::MAX));
    assert!(sprite_in_memory(0));
    assert!(sprite_in_memory(2047));
    assert!(!sprite_in_memory(2048));
    assert!(tile_in_memory(0, 0));
    assert!(tile_in_memory(127, 63));
    assert!(tile_in_memory(0x307f, 383));
    assert!(!tile_in_memory(0x3080, 383));
    assert!(tile_in_memory(0xdfff, 0));
    assert!(!tile_in_memory(0xe000, 0));
    assert!(!tile_in_memory(0, usize::MAX));
}

#[test]
fn bounds_of_frame_and_vram() {
    assert!(frame_fits(0, 0));
    assert!(frame_fits(1, 8));
    assert!(!frame_fits(1, 7));
    assert!(frame_fits(8192, 65536));
    assert!(!frame_fits(8192, 65535));
    assert!(frame_fits(usize::MAX, 65536));
    assert!(pixel_in_vram(1, 1, 0));
    assert!(!pixel_in_vram(1, 2, 0));
    assert!(pixel_in_vram(8192, 127, 127));
    assert!(!pixel_in_vram(8192, 0, 128));
    assert!(!pixel_in_vram(usize::MAX, 0, usize::MAX));
    assert!(!pixel_in_vram(usize::MAX, usize::MAX, 1));
    assert!(!pixel_in_vram(0, 0, 0));
}

#[test]
fn init_refuses_data_that_does_not_fit() {
    let mut memory = Memory::new();
    memory.set(0, 3, 8);
    let big = Cartridge::from_blocks(vec![1u8; 0x4301], Vec::new());
    assert_eq!(memory.init(&big), Err(MemoryError::DataTooLarge));
    assert_eq!(memory.mem[0..9], [3, 3, 3, 3, 3, 3, 3, 3, 0]);
    let full = Cartridge::from_blocks(vec![1u8; 0x4300], Vec::new());
    assert_eq!(memory.init(&full), Ok(()));
    assert_eq!(memory.read(0x42ff), 1);
    assert_eq!(memory.read(0x4300), 0);
    let small = Cartridge::from_blocks(vec![9u8, 8], vec![7u8]);
    assert_eq!(memory.init(&small), Ok(()));
    assert_eq!(memory.mem[0..3], [9, 8, 1]);
    assert_eq!(small.code(), &vec![7u8]);
}
