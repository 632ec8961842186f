//! Pictures in memory.
use vstd::prelude::*;

verus! {

/// A picture with four bytes per pixel, red, green, blue and alpha, row by
/// row from the top.
#[derive(Debug)]
pub struct Image {
    pub width: u32,
    pub height: u32,
    pub data: Vec<u8>,
}

/// Number of bytes of a picture.
pub open spec fn byte_count(width: u32, height: u32) -> int {
    4 * (width * height)
}

/// Place of a byte: channel `c` of the pixel in column `x` and row `y`.
pub open spec fn byte_at(width: u32, x: int, y: int, c: int) -> int {
    4 * (y * width + x) + c
}

/// Every pixel lies within the picture.
pub proof fn lemma_byte_at(width: u32, height: u32, x: int, y: int, c: int)
    requires
        0 <= x < width,
        0 <= y < height,
        0 <= c < 4,
    ensures
        0 <= byte_at(width, x, y, c) < byte_count(width, height),
        0 <= y * width + x < width * height,
{
    assert(0 <= y * width + x < width * height) by (nonlinear_arith)
        requires
            0 <= x < width,
            0 <= y < height,
    ;
}

impl Image {
    /// There are as many bytes as the extent says.
    pub open spec fn sound(self) -> bool {
        self.data@.len() == byte_count(self.width, self.height)
    }

    /// A channel of a pixel.
    pub open spec fn at(self, x: int, y: int, c: int) -> u8 {
        self.data@[byte_at(self.width, x, y, c)]
    }

    /// A picture whose bytes are all 0.
    pub fn new(width: u32, height: u32) -> (p: Image)
        requires
            byte_count(width, height) <= usize::MAX,
        ensures
            p.width == width,
            p.height == height,
            p.sound(),
            forall|i: int| 0 <= i < p.data@.len() ==> #[trigger] p.data@[i] == 0,
    {
        proof {
            assert(0 <= width * height) by (nonlinear_arith);
        }
        let n: usize = 4 * (width as usize * height as usize);
        let mut data: Vec<u8> = Vec::new();
        let mut i: usize = 0;
        while i < n
            invariant
                i <= n,
                data@.len() == i,
                forall|j: int| 0 <= j < i ==> #[trigger] data@[j] == 0,
            decreases n - i,
        {
            data.push(0);
            i += 1;
        }
        Image { width, height, data }
    }
}

/// What a byte of an expanded picture is: one sample stands for all three
/// colours, three for one each, and a fourth for alpha, which is full
/// otherwise.
pub open spec fn expanded(samples: Seq<u8>, n: int, first: int, c: int) -> u8 {
    if n == 1 {
        if c == 3 {
            255
        } else {
            samples[first]
        }
    } else if n == 3 {
        if c == 3 {
            255
        } else {
            samples[first + c]
        }
    } else {
        samples[first + c]
    }
}

impl Image {
    /// The picture has a pixel for each that a renderer produced, whose rows
    /// of `n` samples per pixel begin `stride` bytes apart.
    pub open spec fn shows(self, samples: Seq<u8>, n: int, stride: int) -> bool {
        forall|x: int, y: int, c: int|
            0 <= x < self.width && 0 <= y < self.height && 0 <= c < 4 ==> #[trigger] self.at(
                x,
                y,
                c,
            ) == expanded(samples, n, y * stride + x * n, c)
    }

    /// Build a picture from a renderer's samples, one, three or four per
    /// pixel. Any other number is handed back.
    pub fn from_samples(
        samples: &Vec<u8>,
        width: u32,
        height: u32,
        n: usize,
        stride: usize,
    ) -> (r: Result<Image, usize>)
        requires
            byte_count(width, height) <= usize::MAX,
            height > 0 ==> (height - 1) * stride + width * n <= samples@.len(),
        ensures
            r is Ok <==> (height == 0 || n == 1 || n == 3 || n == 4),
            match r {
                Ok(p) => {
                    &&& p.width == width
                    &&& p.height == height
                    &&& p.sound()
                    &&& p.shows(samples@, n as int, stride as int)
                },
                Err(k) => k == n,
            },
    {
        if height == 0 {
            proof {
                assert(width * height == 0) by (nonlinear_arith)
                    requires
                        height == 0,
                ;
            }
            return Ok(Image { width, height, data: Vec::new() });
        }
        if n != 1 && n != 3 && n != 4 {
            return Err(n);
        }
        let total: usize = samples.len();
        let mut data: Vec<u8> = Vec::new();
        let mut y: u32 = 0;
        let mut row: usize = 0;
        proof {
            assert(0 * width == 0) by (nonlinear_arith);
            assert(0 * stride == 0) by (nonlinear_arith);
        }
        while y < height
            invariant
                y <= height,
                n == 1 || n == 3 || n == 4,
                byte_count(width, height) <= usize::MAX,
                (height - 1) * stride + width * n <= samples@.len(),
                total == samples@.len(),
                row == y * stride || y == height,
                data@.len() == 4 * (y * width),
                forall|u: int, v: int, c: int|
                    0 <= u < width && 0 <= v < y && 0 <= c < 4 ==> data@[#[trigger] byte_at(
                        width,
                        u,
                        v,
                        c,
                    )] == expanded(samples@, n as int, v * stride + u * n, c),
            decreases height - y,
        {
            let mut x: u32 = 0;
            let mut at: usize = row;
            proof {
                assert(0 * n == 0) by (nonlinear_arith);
                assert((y + 0) * stride <= (height - 1) * stride) by (nonlinear_arith)
                    requires
                        y <= height - 1,
                        stride >= 0,
                ;
            }
            while x < width
                invariant
                    x <= width,
                    y < height,
                    n == 1 || n == 3 || n == 4,
                    byte_count(width, height) <= usize::MAX,
                    (height - 1) * stride + width * n <= samples@.len() == total,
                    y * stride <= (height - 1) * stride,
                    row == y * stride,
                    at == row + x * n,
                    data@.len() == 4 * (y * width + x),
                    forall|u: int, v: int, c: int|
                        0 <= u < width && 0 <= v < height && 0 <= c < 4 && (v < y || (v == y && u
                            < x)) ==> data@[#[trigger] byte_at(width, u, v, c)] == expanded(
                            samples@,
                            n as int,
                            v * stride + u * n,
                            c,
                        ),
                decreases width - x,
            {
                proof {
                    assert(x * n + n <= width * n) by (nonlinear_arith)
                        requires
                            x + 1 <= width,
                            n >= 0,
                    ;
                    assert((x + 1) * n == x * n + n) by (nonlinear_arith);
                }
                let ghost sofar = data@;
                if n == 1 {
                    let v: u8 = samples[at];
                    data.push(v);
                    data.push(v);
                    data.push(v);
                    data.push(255);
                } else {
                    data.push(samples[at]);
                    data.push(samples[at + 1]);
                    data.push(samples[at + 2]);
                    data.push(
                        if n == 4 {
                            samples[at + 3]
                        } else {
                            255
                        },
                    );
                }
                proof {
                    assert forall|u: int, v: int, c: int|
                        0 <= u < width && 0 <= v < height && 0 <= c < 4 && (v < y || (v == y && u
                            < x + 1)) implies data@[#[trigger] byte_at(width, u, v, c)]
                        == expanded(samples@, n as int, v * stride + u * n, c) by {
                        if v == y && u == x {
                            assert(byte_at(width, u, v, c) == sofar.len() + c);
                        } else {
                            assert(v * width + u < y * width + x) by (nonlinear_arith)
                                requires
                                    v < y || (v == y && u < x),
                                    0 <= u < width,
                                    0 <= x,
                                    0 <= v <= y,
                            ;
                            assert(0 <= v * width) by (nonlinear_arith)
                                requires
                                    0 <= v,
                                    0 <= width,
                            ;
                            assert(0 <= byte_at(width, u, v, c) < sofar.len());
                            assert(data@[byte_at(width, u, v, c)] == sofar[byte_at(
                                width,
                                u,
                                v,
                                c,
                            )]);
                        }
                    }
                }
                at = at + n;
                x += 1;
            }
            proof {
                assert((y + 1) * width == y * width + width) by (nonlinear_arith);
                assert((y + 1) * stride == y * stride + stride) by (nonlinear_arith);
                assert(0 <= width * n) by (nonlinear_arith)
                    requires
                        0 <= width,
                        0 <= n,
                ;
                assert(y + 1 < height ==> (y + 1) * stride <= (height - 1) * stride)
                    by (nonlinear_arith)
                    requires
                        stride >= 0,
                        y < height,
                ;
            }
            y += 1;
            if y < height {
                row = row + stride;
            }
        }
        let p = Image { width, height, data };
        proof {
            assert(height * width == width * height) by (nonlinear_arith);
            assert forall|x: int, y: int, c: int|
                0 <= x < p.width && 0 <= y < p.height && 0 <= c < 4 implies #[trigger] p.at(
                x,
                y,
                c,
            ) == expanded(samples@, n as int, y * stride + x * n, c) by {
                assert(p.at(x, y, c) == p.data@[byte_at(width, x, y, c)]);
            }
        }
        Ok(p)
    }
}

} // verus!
