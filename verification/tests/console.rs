use kernel_core::console::tty::{init, init_with, Compositor, TTYDrawTarget, TTY};
use kernel_core::memory::frame::{bitmap_placement, BitmapFrameAllocator, MemoryRegion};
use kernel_core::drivers::fpu::FpState;

#[test]
fn pixels_are_stored_blue_green_red() {
    let mut tty = TTY::new(4, 3);
    assert_eq!((tty.width(), tty.height()), (4, 3));
    assert_eq!(tty.read_pixel(1, 2), [0, 0, 0, 0]);
    tty.write_pixel(1, 2, [10, 20, 30, 40]);
    assert_eq!(tty.read_pixel(1, 2), [10, 20, 30, 40]);
    assert_eq!(tty.read_pixel(0, 2), [0, 0, 0, 0]);
    assert_eq!(tty.read_pixel(2, 2), [0, 0, 0, 0]);
    tty.write_pixel(3, 2, [1, 2, 3, 4]);
    assert_eq!(tty.read_pixel(3, 2), [1, 2, 3, 4]);
    assert_eq!(tty.read_pixel(1, 2), [10, 20, 30, 40]);
}

#[test]
fn pixel_bounds() {
    let tty = TTY::new(4, 3);
    assert!(tty.contains(3, 2));
    assert!(tty.contains(0, 0));
    assert!(!tty.contains(4, 2));
    assert!(tty.contains(4, 1));
    assert!(!tty.contains(0, 3));
    assert!(!TTY::new(0, 3).contains(0, 0));
}

#[test]
fn draw_target_names_its_terminal() {
    assert_eq!(TTYDrawTarget::new(3).id(), 3);
}

#[test]
fn new_floating_point_state() {
    let state = FpState::new();
    assert_eq!(state.fcw, 0x037f);
    assert_eq!(state.mxcsr, 0x1f80);
    assert_eq!(state.fsw, 0);
    assert_eq!(state.mxcsr_mask, 0);
    assert!(state.mm.iter().all(|w| *w == 0));
    assert!(state.xmm.iter().all(|w| *w == 0));
    assert!(state.rest.iter().all(|w| *w == 0));
}

#[test]
fn first_switch_shows_terminal_zero() {
    let map = vec![MemoryRegion { base: 0, length: 4 * 1024 * 1024, usable: true }];
    let place = bitmap_placement(&map).unwrap();
    let mut allocator = BitmapFrameAllocator::init(&map, vec![0u8; place.size]).unwrap();
    let free = allocator.usable_frames();
    let mut screen = vec![0xaau8; 64 * 32 * 4];
    let mut compositor = init(64, 32, &mut screen);
    assert_eq!(allocator.usable_frames(), free);
    assert!(compositor.is_initialised());
    assert_eq!(compositor.current_tty(), 0);
    assert!(screen.iter().all(|b| *b == 0));

    let target = TTYDrawTarget::new(2);
    assert_eq!(target.size(&compositor), (64, 32));
    target.draw_pixel(&mut compositor, 3, 1, (10, 20, 30));
    assert_eq!(compositor.get_tty(2).read_pixel(3, 1), [10, 20, 30, 0]);
    assert_eq!(compositor.get_tty(1).read_pixel(3, 1), [0, 0, 0, 0]);

    assert!(compositor.contains(2, 63, 31));
    assert!(!compositor.contains(2, 0, 32));
    screen[0] = 0x11;
    let plan = compositor.plan_switch(2, &mut allocator).unwrap();
    assert_eq!(compositor.current_tty(), 0);
    assert_eq!(compositor.get_tty(0).read_pixel(0, 0), [0, 0, 0, 0]);
    compositor.switch_to(2, &mut screen);
    assert_eq!(plan.outgoing, Some(0));
    assert_eq!(plan.incoming, 2);
    assert_eq!(compositor.current_tty(), 2);
    assert_eq!(plan.pages, 2);
    assert_eq!(plan.fresh_frames.len(), 2);
    assert!(plan.enable_interrupts);
    assert_eq!(allocator.usable_frames(), free - 2);
    assert_eq!(compositor.get_tty(0).read_pixel(0, 0), [0, 0, 0x11, 0]);
    let offset = (64 * 1 + 3) * 4;
    assert_eq!(&screen[offset..offset + 4], &[30, 20, 10, 0]);
    assert_eq!(screen[0], 0);

    screen[4] = 0x22;
    let plan = compositor.plan_switch(0, &mut allocator).unwrap();
    compositor.switch_to(0, &mut screen);
    assert_eq!(plan.outgoing, Some(2));
    assert_eq!(plan.fresh_frames.len(), 2);
    assert_eq!(target.size(&compositor), (64, 32));
    assert_eq!(screen[0], 0x11);
    assert_eq!(screen[4], 0);
    assert_eq!(compositor.get_tty(2).read_pixel(1, 0), [0, 0, 0x22, 0]);
    assert_eq!(compositor.get_tty(2).read_pixel(3, 1), [10, 20, 30, 0]);

    let left = allocator.usable_frames();
    allocator.allocate_many(left - 1).unwrap();
    assert!(compositor.plan_switch(1, &mut allocator).is_none());
    assert_eq!(screen[0], 0x11);
    assert_eq!(allocator.usable_frames(), 1);
    assert_eq!(compositor.current_tty(), 0);
}

#[test]
fn terminals_over_given_buffers() {
    let map = vec![MemoryRegion { base: 0, length: 4 * 1024 * 1024, usable: true }];
    let place = bitmap_placement(&map).unwrap();
    let mut allocator = BitmapFrameAllocator::init(&map, vec![0u8; place.size]).unwrap();
    let free = allocator.usable_frames();
    let buffers: Vec<Vec<u8>> = (0..6u8).map(|i| vec![i; 2 * 2 * 4]).collect();
    let mut compositor = Compositor::with_buffers(2, 2, buffers).unwrap();
    assert!(!compositor.is_initialised());
    assert_eq!(compositor.get_tty(3).buffer(), &vec![3u8; 16]);
    let mut screen = vec![9u8; 16];
    let first = compositor.plan_switch(0, &mut allocator).unwrap();
    assert_eq!(first.outgoing, None);
    assert!(first.fresh_frames.is_empty());
    assert!(!first.enable_interrupts);
    assert_eq!(allocator.usable_frames(), free);
    init_with(&mut compositor, &mut screen);
    assert!(compositor.is_initialised());
    assert_eq!(compositor.get_tty(5).width(), 2);
    assert_eq!(compositor.get_tty(5).height(), 2);
    assert_eq!(screen, vec![0u8; 16]);
    assert_eq!(compositor.get_tty(1).buffer(), &vec![1u8; 16]);
    assert!(Compositor::with_buffers(2, 2, vec![vec![0u8; 16]; 5]).is_none());
    let mut wrong = vec![vec![0u8; 16]; 6];
    wrong[4] = vec![0u8; 15];
    assert!(Compositor::with_buffers(2, 2, wrong).is_none());
    assert!(TTY::from_buffer(vec![0u8; 16], 2, 2).is_some());
    assert!(TTY::from_buffer(vec![0u8; 16], 2, 3).is_none());
}
