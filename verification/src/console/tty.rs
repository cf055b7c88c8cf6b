//! A virtual terminal: an off-screen picture of four bytes for each pixel,
//! stored blue, green, red, alpha.

use crate::memory::frame::BitmapFrameAllocator;
use crate::memory::user_heap::frames_taken;
use vstd::prelude::*;

verus! {

/// The position in the buffer of the first byte of pixel (`x`, `y`) in a
/// picture of width `width`.
pub open spec fn pixel_offset(width: int, x: int, y: int) -> int {
    (width * y + x) * 4
}

/// A virtual terminal.
pub struct TTY {
    buffer: Vec<u8>,
    width: usize,
    height: usize,
}

impl TTY {
    /// The bytes of the picture.
    pub closed spec fn bytes(&self) -> Seq<u8> {
        self.buffer@
    }

    /// The width of the picture in pixels.
    pub closed spec fn spec_width(&self) -> usize {
        self.width
    }

    /// The height of the picture in pixels.
    pub closed spec fn spec_height(&self) -> usize {
        self.height
    }

    /// The buffer has four bytes for each pixel.
    pub open spec fn wf(&self) -> bool {
        self.bytes().len() == self.spec_width() * self.spec_height() * 4
    }

    /// Whether pixel (`x`, `y`) lies in the buffer.
    pub open spec fn holds(&self, x: usize, y: usize) -> bool {
        self.spec_width() * y + x < self.spec_width() * self.spec_height()
    }

    /// A terminal of `width` times `height` pixels, all of them zero.
    pub fn new(width: usize, height: usize) -> (tty: Self)
        requires
            width * height * 4 <= usize::MAX,
        ensures
            tty.wf(),
            tty.spec_width() == width,
            tty.spec_height() == height,
            forall|i: int| 0 <= i < tty.bytes().len() ==> tty.bytes()[i] == 0,
    {
        assert(width * height <= width * height * 4) by (nonlinear_arith);
        TTY { buffer: vec![0u8; width * height * 4], width, height }
    }

    /// A terminal of `width` times `height` pixels whose picture lies in
    /// `buffer`, which is kept as it is. `None` if the buffer has not four
    /// bytes for each pixel.
    pub fn from_buffer(buffer: Vec<u8>, width: usize, height: usize) -> (tty: Option<Self>)
        requires
            width * height * 4 <= usize::MAX,
        ensures
            tty is Some <==> buffer@.len() == width * height * 4,
            tty matches Some(made) ==> made.wf() && made.spec_width() == width
                && made.spec_height() == height && made.bytes() == buffer@,
    {
        assert(width * height <= width * height * 4) by (nonlinear_arith);
        if buffer.len() != width * height * 4 {
            return None;
        }
        Some(TTY { buffer, width, height })
    }

    /// The bytes of the picture, where they lie.
    pub fn buffer(&self) -> (buffer: &Vec<u8>)
        ensures
            buffer@ == self.bytes(),
    {
        &self.buffer
    }

    /// The width of the picture in pixels.
    #[verifier::when_used_as_spec(spec_width)]
    pub fn width(&self) -> (width: usize)
        ensures
            width == self.spec_width(),
    {
        self.width
    }

    /// The height of the picture in pixels.
    #[verifier::when_used_as_spec(spec_height)]
    pub fn height(&self) -> (height: usize)
        ensures
            height == self.spec_height(),
    {
        self.height
    }

    /// Whether pixel (`x`, `y`) lies in the buffer.
    pub fn contains(&self, x: usize, y: usize) -> (inside: bool)
        requires
            self.wf(),
        ensures
            inside == self.holds(x, y),
    {
        let pixels = self.buffer.len() / 4;
        assert(pixels == self.width * self.height);
        if self.width == 0 || y >= self.height {
            proof {
                if self.width != 0 {
                    assert(self.width * y >= self.width * self.height) by (nonlinear_arith)
                        requires
                            y >= self.height,
                            self.width >= 0,
                    ;
                } else {
                    assert(self.width * self.height == 0) by (nonlinear_arith)
                        requires
                            self.width == 0,
                    ;
                }
            }
            return false;
        }
        assert(self.width * y <= self.width * (self.height - 1)) by (nonlinear_arith)
            requires
                y <= self.height - 1,
                self.width >= 0,
        ;
        assert(self.width * (self.height - 1) == self.width * self.height - self.width)
            by (nonlinear_arith);
        let row = self.width * y;
        x < pixels - row
    }

    /// Replaces the picture by `image`, which has as many bytes.
    pub fn load(&mut self, image: &Vec<u8>)
        requires
            old(self).wf(),
            image@.len() == old(self).bytes().len(),
        ensures
            final(self).wf(),
            final(self).spec_width() == old(self).spec_width(),
            final(self).spec_height() == old(self).spec_height(),
            final(self).bytes() == image@,
    {
        let n = image.len();
        let mut i: usize = 0;
        while i < n
            invariant
                i <= n,
                n == image@.len(),
                self.buffer@.len() == n,
                self.width == old(self).width,
                self.height == old(self).height,
                forall|k: int| 0 <= k < i ==> self.buffer@[k] == image@[k],
            decreases n - i,
        {
            self.buffer.set(i, image[i]);
            i += 1;
        }
        assert(self.buffer@ =~= image@);
    }

    /// Copies the picture over `image`, which has as many bytes.
    pub fn show(&self, image: &mut Vec<u8>)
        requires
            old(image)@.len() == self.bytes().len(),
        ensures
            final(image)@ == self.bytes(),
    {
        let n = self.buffer.len();
        let mut i: usize = 0;
        while i < n
            invariant
                i <= n,
                n == self.buffer@.len(),
                image@.len() == n,
                forall|k: int| 0 <= k < i ==> image@[k] == self.buffer@[k],
            decreases n - i,
        {
            image.set(i, self.buffer[i]);
            i += 1;
        }
        assert(image@ =~= self.buffer@);
    }

    /// The number of bytes of the picture.
    pub fn size(&self) -> (n: usize)
        ensures
            n == self.bytes().len(),
    {
        self.buffer.len()
    }

    /// Stores a pixel, given as red, green, blue, alpha.
    pub fn write_pixel(&mut self, x: usize, y: usize, pixel: [u8; 4])
        requires
            old(self).wf(),
            old(self).holds(x, y),
        ensures
            final(self).wf(),
            final(self).spec_width() == old(self).spec_width(),
            final(self).spec_height() == old(self).spec_height(),
            final(self).bytes() == old(self).bytes().update(
                pixel_offset(old(self).spec_width() as int, x as int, y as int),
                pixel@[2],
            ).update(
                pixel_offset(old(self).spec_width() as int, x as int, y as int) + 1,
                pixel@[1],
            ).update(
                pixel_offset(old(self).spec_width() as int, x as int, y as int) + 2,
                pixel@[0],
            ).update(
                pixel_offset(old(self).spec_width() as int, x as int, y as int) + 3,
                pixel@[3],
            ),
    {
        assert(self.width * y >= 0) by (nonlinear_arith)
            requires
                self.width >= 0,
                y >= 0,
        ;
        let len = self.buffer.len();
        assert(len == self.width * self.height * 4);
        let pos = (self.width * y + x) * 4;
        self.buffer.set(pos, pixel[2]);
        self.buffer.set(pos + 1, pixel[1]);
        self.buffer.set(pos + 2, pixel[0]);
        self.buffer.set(pos + 3, pixel[3]);
    }

    /// Reads a pixel as red, green, blue, alpha.
    pub fn read_pixel(&self, x: usize, y: usize) -> (pixel: [u8; 4])
        requires
            self.wf(),
            self.holds(x, y),
        ensures
            pixel@[0] == self.bytes()[pixel_offset(self.spec_width() as int, x as int, y as int)
                + 2],
            pixel@[1] == self.bytes()[pixel_offset(self.spec_width() as int, x as int, y as int)
                + 1],
            pixel@[2] == self.bytes()[pixel_offset(self.spec_width() as int, x as int, y as int)],
            pixel@[3] == self.bytes()[pixel_offset(self.spec_width() as int, x as int, y as int)
                + 3],
    {
        assert(self.width * y >= 0) by (nonlinear_arith)
            requires
                self.width >= 0,
                y >= 0,
        ;
        let len = self.buffer.len();
        assert(len == self.width * self.height * 4);
        let pos = (self.width * y + x) * 4;
        [self.buffer[pos + 2], self.buffer[pos + 1], self.buffer[pos], self.buffer[pos + 3]]
    }
}

/// The number of virtual terminals.
pub const TTY_COUNT: usize = 6;

/// What a switch of terminals asks of the caller, who does it with interrupts
/// masked, in three steps. First the pages of the terminal that leaves are
/// mapped to `fresh_frames`. Then `Compositor::switch_to` copies the screen
/// into them and the picture of the terminal that comes to the screen. Last
/// the pages of the terminal that comes are mapped to the frames of the
/// screen, and the frames that backed them before are given back.
#[derive(Debug)]
pub struct SwitchPlan {
    /// The terminal that leaves the screen; none at the first switch.
    pub outgoing: Option<usize>,
    /// Newly allocated frames, one for each page of the outgoing terminal.
    pub fresh_frames: Vec<u64>,
    /// The terminal that comes to the screen.
    pub incoming: usize,
    /// The number of pages of a terminal's picture.
    pub pages: usize,
    /// Whether interrupts are enabled again when the switch is done: not
    /// during the first switch, which is part of bringing the console up.
    pub enable_interrupts: bool,
}

/// The virtual terminals and which of them is on the screen.
pub struct Compositor {
    ttys: Vec<TTY>,
    current: usize,
    init: bool,
}

impl Compositor {
    /// The pictures of the terminals.
    pub closed spec fn pictures(&self) -> Seq<Seq<u8>> {
        Seq::new(self.ttys@.len(), |i: int| self.ttys@[i].bytes())
    }

    /// The terminal that is on the screen.
    pub closed spec fn current(&self) -> usize {
        self.current
    }

    /// Whether the console has been brought up, that is whether a terminal
    /// has been on the screen before.
    pub closed spec fn initialised(&self) -> bool {
        self.init
    }

    /// The number of bytes of each terminal's picture.
    pub closed spec fn picture_len(&self) -> nat {
        self.ttys@[0].bytes().len()
    }

    /// There are `TTY_COUNT` terminals of one width and height, and one of
    /// them is current.
    pub closed spec fn wf(&self) -> bool {
        &&& self.ttys@.len() == TTY_COUNT
        &&& self.current < TTY_COUNT
        &&& forall|i: int|
            0 <= i < TTY_COUNT ==> (#[trigger] self.ttys@[i]).wf() && self.ttys@[i].spec_width()
                == self.ttys@[0].spec_width() && self.ttys@[i].spec_height()
                == self.ttys@[0].spec_height()
    }

    /// Whether every terminal is `width` pixels wide and `height` pixels high.
    pub open spec fn sized(&self, width: usize, height: usize) -> bool {
        forall|i: int|
            0 <= i < TTY_COUNT ==> #[trigger] self.tty_width(i as usize) == width
                && self.tty_height(i as usize) == height
    }

    /// Whether every terminal has the width and the height that it has in `other`.
    pub open spec fn sized_as(&self, other: &Self) -> bool {
        forall|i: int|
            0 <= i < TTY_COUNT ==> #[trigger] self.tty_width(i as usize) == other.tty_width(
                i as usize,
            ) && self.tty_height(i as usize) == other.tty_height(i as usize)
    }

    /// The pictures are as many as the terminals; each has four bytes for
    /// each pixel, and all terminals have one width and one height.
    pub proof fn lemma_wf(&self)
        requires
            self.wf(),
        ensures
            self.pictures().len() == TTY_COUNT,
            self.current() < TTY_COUNT,
            forall|i: int| 0 <= i < TTY_COUNT ==> (#[trigger] self.pictures()[i]).len() == self.picture_len(),
            self.sized(self.tty_width(0), self.tty_height(0)),
            self.picture_len() == self.tty_width(0) * self.tty_height(0) * 4,
    {
        assert(self.ttys@[0].wf());
        assert forall|i: int| 0 <= i < TTY_COUNT implies (#[trigger] self.pictures()[i]).len()
            == self.picture_len() by {
            assert(self.ttys@[i].wf());
        }
    }

    /// The terminals of a console that has not been brought up yet: each of
    /// `width` times `height` pixels, all zero, with terminal 0 current.
    pub fn new(width: usize, height: usize) -> (compositor: Self)
        requires
            width * height * 4 <= usize::MAX,
        ensures
            compositor.wf(),
            compositor.current() == 0,
            !compositor.initialised(),
            compositor.picture_len() == width * height * 4,
            compositor.sized(width, height),
            forall|i: int, k: int|
                0 <= i < TTY_COUNT && 0 <= k < compositor.picture_len()
                    ==> compositor.pictures()[i][k] == 0,
    {
        let mut ttys: Vec<TTY> = Vec::new();
        let mut i: usize = 0;
        while i < TTY_COUNT
            invariant
                i <= TTY_COUNT,
                width * height * 4 <= usize::MAX,
                ttys@.len() == i,
                forall|j: int|
                    0 <= j < i ==> (#[trigger] ttys@[j]).wf() && ttys@[j].spec_width() == width
                        && ttys@[j].spec_height() == height && ttys@[j].bytes().len() == width
                        * height * 4 && forall|k: int|
                        0 <= k < ttys@[j].bytes().len() ==> ttys@[j].bytes()[k] == 0,
            decreases TTY_COUNT - i,
        {
            ttys.push(TTY::new(width, height));
            i += 1;
        }
        Compositor { ttys, current: 0, init: false }
    }

    /// The terminals of a console that has not been brought up yet, with
    /// their pictures in `buffers`, which are kept as they are. `None` unless
    /// there are `TTY_COUNT` buffers of four bytes for each pixel.
    pub fn with_buffers(width: usize, height: usize, buffers: Vec<Vec<u8>>) -> (compositor: Option<
        Self,
    >)
        requires
            width * height * 4 <= usize::MAX,
        ensures
            compositor is Some <==> buffers@.len() == TTY_COUNT && forall|i: int|
                0 <= i < TTY_COUNT ==> (#[trigger] buffers@[i])@.len() == width * height * 4,
            compositor matches Some(made) ==> {
                &&& made.wf()
                &&& made.current() == 0
                &&& !made.initialised()
                &&& made.picture_len() == width * height * 4
                &&& made.sized(width, height)
                &&& made.pictures() == Seq::new(TTY_COUNT as nat, |i: int| buffers@[i]@)
            },
    {
        if buffers.len() != TTY_COUNT {
            return None;
        }
        let ghost all = buffers@;
        let mut rest = buffers;
        let mut ttys: Vec<TTY> = Vec::new();
        let mut i: usize = 0;
        while i < TTY_COUNT
            invariant
                i <= TTY_COUNT,
                width * height * 4 <= usize::MAX,
                all.len() == TTY_COUNT,
                ttys@.len() == i,
                all == buffers@,
                rest@ == all.subrange(i as int, TTY_COUNT as int),
                forall|j: int|
                    0 <= j < i ==> (#[trigger] ttys@[j]).wf() && ttys@[j].bytes() == all[j]@
                        && ttys@[j].spec_width() == width && ttys@[j].spec_height() == height
                        && all[j]@.len() == width * height * 4,
            decreases TTY_COUNT - i,
        {
            let buffer = rest.remove(0);
            assert(buffer == all[i as int]);
            assert(rest@ =~= all.subrange(i + 1, TTY_COUNT as int));
            let ghost before = ttys@;
            match TTY::from_buffer(buffer, width, height) {
                Some(tty) => {
                    ttys.push(tty);
                    proof {
                        assert forall|j: int| 0 <= j < i + 1 implies (#[trigger] ttys@[j]).wf()
                            && ttys@[j].bytes() == all[j]@ && ttys@[j].spec_width() == width
                            && ttys@[j].spec_height() == height && all[j]@.len() == width
                            * height * 4 by {
                            if j < i {
                                assert(ttys@[j] == before[j]);
                            }
                        }
                    }
                },
                None => {
                    assert(all[i as int]@.len() != width * height * 4);
                    return None;
                },
            }
            i += 1;
        }
        let made = Compositor { ttys, current: 0, init: false };
        assert forall|j: int| 0 <= j < TTY_COUNT implies (#[trigger] buffers@[j])@.len() == width
            * height * 4 by {
            assert(made.ttys@[j].bytes() == all[j]@);
        }
        assert(made.pictures() =~= Seq::new(TTY_COUNT as nat, |i: int| all[i]@));
        Some(made)
    }

    /// The terminal that is on the screen.
    pub fn current_tty(&self) -> (tty: usize)
        ensures
            tty == self.current(),
    {
        self.current
    }

    /// Whether the console has been brought up.
    pub fn is_initialised(&self) -> (up: bool)
        ensures
            up == self.initialised(),
    {
        self.init
    }

    /// Notes that the console has been brought up.
    pub fn set_initialised(&mut self)
        requires
            old(self).wf(),
        ensures
            final(self).wf(),
            final(self).initialised(),
            final(self).pictures() == old(self).pictures(),
            final(self).current() == old(self).current(),
            final(self).picture_len() == old(self).picture_len(),
            final(self).sized_as(old(self)),
    {
        self.init = true;
    }

    /// Terminal `id`.
    pub fn get_tty(&self, id: usize) -> (tty: &TTY)
        requires
            self.wf(),
            id < TTY_COUNT,
        ensures
            tty.bytes() == self.pictures()[id as int],
            tty.spec_width() == self.tty_width(id),
            tty.spec_height() == self.tty_height(id),
            tty.wf(),
    {
        &self.ttys[id]
    }

    /// Whether pixel (`x`, `y`) lies in the picture of terminal `id`.
    pub open spec fn tty_holds(&self, id: usize, x: usize, y: usize) -> bool {
        self.tty_width(id) * y + x < self.tty_width(id) * self.tty_height(id)
    }

    /// The position of pixel (`x`, `y`) in the picture of terminal `id`.
    pub open spec fn tty_offset(&self, id: usize, x: usize, y: usize) -> int {
        pixel_offset(self.tty_width(id) as int, x as int, y as int)
    }

    /// Whether pixel (`x`, `y`) lies in the picture of terminal `id`.
    pub fn contains(&self, id: usize, x: usize, y: usize) -> (inside: bool)
        requires
            self.wf(),
            id < TTY_COUNT,
        ensures
            inside == self.tty_holds(id, x, y),
    {
        self.ttys[id].contains(x, y)
    }

    /// The width of terminal `id` in pixels.
    pub closed spec fn tty_width(&self, id: usize) -> usize {
        self.ttys@[id as int].spec_width()
    }

    /// The height of terminal `id` in pixels.
    pub closed spec fn tty_height(&self, id: usize) -> usize {
        self.ttys@[id as int].spec_height()
    }

    /// Stores a pixel, given as red, green, blue, alpha, in terminal `id`.
    pub fn write_pixel(&mut self, id: usize, x: usize, y: usize, pixel: [u8; 4])
        requires
            old(self).wf(),
            id < TTY_COUNT,
            old(self).tty_holds(id, x, y),
        ensures
            final(self).wf(),
            final(self).current() == old(self).current(),
            final(self).initialised() == old(self).initialised(),
            final(self).picture_len() == old(self).picture_len(),
            final(self).sized_as(old(self)),
            final(self).pictures() == old(self).pictures().update(
                id as int,
                old(self).pictures()[id as int].update(old(self).tty_offset(id, x, y), pixel@[2]).update(
                    old(self).tty_offset(id, x, y) + 1,
                    pixel@[1],
                ).update(old(self).tty_offset(id, x, y) + 2, pixel@[0]).update(
                    old(self).tty_offset(id, x, y) + 3,
                    pixel@[3],
                ),
            ),
    {
        self.ttys[id].write_pixel(x, y, pixel);
        assert(self.pictures() =~= old(self).pictures().update(
            id as int,
            old(self).pictures()[id as int].update(old(self).tty_offset(id, x, y), pixel@[2]).update(
                old(self).tty_offset(id, x, y) + 1,
                pixel@[1],
            ).update(old(self).tty_offset(id, x, y) + 2, pixel@[0]).update(
                old(self).tty_offset(id, x, y) + 3,
                pixel@[3],
            ),
        ));
    }

    /// The pictures after a switch to terminal `tty` with `screen` on the
    /// screen: once the console is up, the terminal that leaves keeps what
    /// the screen showed last.
    pub open spec fn pictures_after(&self, screen: Seq<u8>) -> Seq<Seq<u8>> {
        if self.initialised() {
            self.pictures().update(self.current() as int, screen)
        } else {
            self.pictures()
        }
    }

    /// The number of frames that a switch allocates: once the console is up,
    /// one for each page of the terminal that leaves.
    pub open spec fn frames_needed(&self) -> nat {
        if self.initialised() {
            self.picture_len() / 4096
        } else {
            0
        }
    }

    /// The first step of a switch to terminal `tty`: once the console is up,
    /// one frame is allocated for each page of the terminal that leaves the
    /// screen. The result says what the caller has to map before and after
    /// `switch_to`. `None`, with nothing allocated, if the frames are not to
    /// be had.
    pub fn plan_switch(&self, tty: usize, allocator: &mut BitmapFrameAllocator) -> (plan: Option<
        SwitchPlan,
    >)
        requires
            self.wf(),
            old(allocator).wf(),
            tty < TTY_COUNT,
        ensures
            final(allocator).wf(),
            plan is Some <==> self.frames_needed() <= old(allocator).usable(),
            plan is None ==> final(allocator).state() == old(allocator).state(),
            plan matches Some(steps) ==> {
                &&& final(allocator).state() == old(allocator).state().after(self.frames_needed())
                &&& final(allocator).usable() == old(allocator).usable() - self.frames_needed()
                &&& steps.fresh_frames@ == frames_taken(
                    old(allocator).state(),
                    self.frames_needed(),
                )
                &&& steps.outgoing == if self.initialised() {
                    Some(self.current())
                } else {
                    None
                }
                &&& steps.incoming == tty
                &&& steps.pages == self.picture_len() / 4096
                &&& steps.enable_interrupts == self.initialised()
            },
    {
        let pages = self.ttys[0].size() / 4096;
        if self.init {
            match allocator.allocate_many(pages) {
                Some(frames) => {
                    assert(frames@ =~= frames_taken(old(allocator).state(), pages as nat));
                    Some(
                        SwitchPlan {
                            outgoing: Some(self.current),
                            fresh_frames: frames,
                            incoming: tty,
                            pages,
                            enable_interrupts: true,
                        },
                    )
                },
                None => None,
            }
        } else {
            let fresh_frames: Vec<u64> = Vec::new();
            assert(fresh_frames@ =~= frames_taken(old(allocator).state(), 0));
            Some(
                SwitchPlan {
                    outgoing: None,
                    fresh_frames,
                    incoming: tty,
                    pages,
                    enable_interrupts: false,
                },
            )
        }
    }

    /// The second step of a switch: brings terminal `tty` to the screen, whose
    /// bytes are `screen`. Once the console is up, the terminal that leaves
    /// takes the screen's picture with it. Then the picture of `tty` is copied
    /// to the screen.
    pub fn switch_to(&mut self, tty: usize, screen: &mut Vec<u8>)
        requires
            old(self).wf(),
            tty < TTY_COUNT,
            old(screen)@.len() == old(self).picture_len(),
        ensures
            final(self).wf(),
            final(self).picture_len() == old(self).picture_len(),
            final(self).initialised() == old(self).initialised(),
            final(self).sized_as(old(self)),
            final(self).pictures() == old(self).pictures_after(old(screen)@),
            final(screen)@ == old(self).pictures_after(old(screen)@)[tty as int],
            final(self).current() == tty,
    {
        proof {
            self.lemma_wf();
        }
        if self.init {
            let last = self.current;
            self.ttys[last].load(screen);
        }
        assert(self.pictures() =~= old(self).pictures_after(old(screen)@));
        self.current = tty;
        self.ttys[tty].show(screen);
    }
}

/// Brings a console up whose terminals exist: puts terminal 0 on the screen,
/// whose bytes are `screen`.
pub fn init_with(compositor: &mut Compositor, screen: &mut Vec<u8>)
    requires
        old(compositor).wf(),
        !old(compositor).initialised(),
        old(screen)@.len() == old(compositor).picture_len(),
    ensures
        final(compositor).wf(),
        final(compositor).initialised(),
        final(compositor).current() == 0,
        final(compositor).picture_len() == old(compositor).picture_len(),
        final(compositor).sized_as(old(compositor)),
        final(compositor).pictures() == old(compositor).pictures(),
        final(screen)@ == old(compositor).pictures()[0],
{
    compositor.switch_to(0, screen);
    let ghost switched = *compositor;
    compositor.set_initialised();
    proof {
        assert(compositor.sized_as(&switched));
    }
}

/// Brings the console up: makes the terminals, each of `width` times `height`
/// pixels, and puts terminal 0 on the screen, whose bytes are `screen`.
pub fn init(width: usize, height: usize, screen: &mut Vec<u8>) -> (compositor: Compositor)
    requires
        width * height * 4 <= usize::MAX,
        old(screen)@.len() == width * height * 4,
    ensures
        compositor.wf(),
        compositor.initialised(),
        compositor.current() == 0,
        compositor.picture_len() == width * height * 4,
        compositor.sized(width, height),
        forall|i: int, k: int|
            0 <= i < TTY_COUNT && 0 <= k < compositor.picture_len() ==> compositor.pictures()[i][k]
                == 0,
        final(screen)@ == compositor.pictures()[0],
{
    let mut compositor = Compositor::new(width, height);
    proof {
        compositor.lemma_wf();
    }
    let ghost made = compositor;
    init_with(&mut compositor, screen);
    proof {
        assert(compositor.sized_as(&made));
    }
    compositor
}

/// The drawing side of one terminal, named by its number.
pub struct TTYDrawTarget {
    id: usize,
}

impl TTYDrawTarget {
    /// The number of the terminal that is drawn to.
    pub closed spec fn target(&self) -> usize {
        self.id
    }

    /// The drawing side of terminal `id`.
    pub fn new(id: usize) -> (target: Self)
        ensures
            target.target() == id,
    {
        Self { id }
    }

    /// The number of the terminal that is drawn to.
    pub fn id(&self) -> (id: usize)
        ensures
            id == self.target(),
    {
        self.id
    }

    /// Draws a pixel of colour (`red`, `green`, `blue`) on the terminal. The
    /// alpha byte is zero.
    pub fn draw_pixel(&self, compositor: &mut Compositor, x: usize, y: usize, color: (u8, u8, u8))
        requires
            old(compositor).wf(),
            self.target() < TTY_COUNT,
            old(compositor).tty_holds(self.target(), x, y),
        ensures
            final(compositor).wf(),
            final(compositor).current() == old(compositor).current(),
            final(compositor).initialised() == old(compositor).initialised(),
            final(compositor).picture_len() == old(compositor).picture_len(),
            final(compositor).sized_as(old(compositor)),
            final(compositor).pictures() == old(compositor).pictures().update(
                self.target() as int,
                old(compositor).pictures()[self.target() as int].update(
                    old(compositor).tty_offset(self.target(), x, y),
                    color.2,
                ).update(old(compositor).tty_offset(self.target(), x, y) + 1, color.1).update(
                    old(compositor).tty_offset(self.target(), x, y) + 2,
                    color.0,
                ).update(old(compositor).tty_offset(self.target(), x, y) + 3, 0),
            ),
    {
        compositor.write_pixel(self.id, x, y, [color.0, color.1, color.2, 0]);
    }

    /// The width and the height of the terminal in pixels.
    pub fn size(&self, compositor: &Compositor) -> (size: (usize, usize))
        requires
            compositor.wf(),
            self.target() < TTY_COUNT,
        ensures
            size.0 == compositor.tty_width(self.target()),
            size.1 == compositor.tty_height(self.target()),
    {
        let tty = compositor.get_tty(self.id);
        (tty.width(), tty.height())
    }
}

} // verus!
