//! The two-dimensional convolution: where it reads and writes, and its value as a product
//! of the matrix of the filters with each patch of the input.

use vstd::prelude::*;
use crate::algebra::apply::invoke;
use crate::algebra::kernel::{kernel_ok, kernel_value};
use crate::algebra::operation::{conv2d_shape, Operation, OperationView, Padding};
use crate::layout::{reshape, reshape_of, transpose, transpose_of};
use crate::shape::size;
use crate::tensor::{shapes, views, Tensor, TensorView, ZERO};

verus! {

/// The shape that inference gives a convolution, where it gives one.
pub fn output_shape(input: &Vec<usize>, kernel: &Vec<usize>, stride: usize, padding: Padding) -> (r:
    Option<Vec<usize>>)
    ensures
        r is Some <==> conv2d_shape(input@, kernel@, stride, padding) is Some,
        r is Some ==> conv2d_shape(input@, kernel@, stride, padding) == Some(r->0@),
{
    if input.len() < 2 || kernel.len() < 4 || stride == 0 {
        return None;
    }
    let mut shape: Vec<usize> = Vec::new();
    match padding {
        Padding::Same => {
            shape.push(input[0] / stride);
            shape.push(input[1] / stride);
            shape.push(kernel[3]);
            assert(shape@ =~= seq![input[0] / stride, input[1] / stride, kernel[3]]);
            Some(shape)
        },
        Padding::Valid => {
            if input[0] < kernel[0] || input[1] < kernel[1] {
                return None;
            }
            let rows: usize = (input[0] - kernel[0]) / stride;
            let columns: usize = (input[1] - kernel[1]) / stride;
            if rows == usize::MAX || columns == usize::MAX {
                return None;
            }
            shape.push(rows + 1);
            shape.push(columns + 1);
            shape.push(kernel[3]);
            assert(shape@ =~= seq![(rows + 1) as usize, (columns + 1) as usize, kernel[3]]);
            Some(shape)
        },
    }
}

/// Where a convolution reads and writes: the lengths of its input and kernel, the zeros
/// around the input, and the lengths of its output.
#[derive(Clone, Copy, Debug, PartialEq, Eq, Structural)]
pub struct Geometry {
    /// Lines of the input.
    pub in_height: usize,
    /// Pixels in a line of the input.
    pub in_width: usize,
    /// Channels of the input and of the kernel.
    pub in_channels: usize,
    /// Lines of the kernel.
    pub kernel_height: usize,
    /// Pixels in a line of the kernel.
    pub kernel_width: usize,
    /// Filters of the kernel, the channels of the output.
    pub out_channels: usize,
    /// By how many pixels the kernel is stepped.
    pub stride: usize,
    /// Lines of zeros above the input.
    pub pad_top: usize,
    /// Columns of zeros left of the input.
    pub pad_left: usize,
    /// Lines of the input with the zeros above and below it.
    pub padded_height: usize,
    /// Pixels in a line of the input with the zeros left and right of it.
    pub padded_width: usize,
    /// Lines of the output.
    pub out_height: usize,
    /// Pixels in a line of the output.
    pub out_width: usize,
}

/// The zeros before the input along an axis on which the kernel has length `kernel`:
/// half of the kernel's length less one.
pub open spec fn pad_before(kernel: usize) -> int {
    (kernel - 1) / 2
}

/// The length of an axis of the input with the zeros around it, the kernel's length being
/// `kernel`: as many zeros after the input as before it, and one more where the kernel's
/// length is even.
pub open spec fn padded(length: usize, kernel: usize) -> int {
    length + 2 * pad_before(kernel) + (kernel + 1) % 2
}

/// The number of places at which a kernel of length `kernel` lies inside an axis of length
/// `length` when it is stepped by `stride`.
pub open spec fn places(length: int, kernel: usize, stride: usize) -> int {
    (length - kernel) / (stride as int) + 1
}

/// The geometry of a convolution of an input of shape `(height, width, channels)` with a
/// kernel of shape `(kernel height, kernel width, channels, filters)`, where there is one:
/// the ranks are three and four, the channels agree, the stride is not zero, and along both
/// axes the kernel has a length and fits into the input with the zeros around it.
pub open spec fn geometry_of(
    input: Seq<usize>,
    kernel: Seq<usize>,
    stride: usize,
    padding: Padding,
) -> Option<Geometry> {
    if input.len() != 3 || kernel.len() != 4 || input[2] != kernel[2] || stride == 0 {
        None
    } else {
        let (height, width) = match padding {
            Padding::Same => (padded(input[0], kernel[0]), padded(input[1], kernel[1])),
            Padding::Valid => (input[0] as int, input[1] as int),
        };
        let (top, left) = match padding {
            Padding::Same => (pad_before(kernel[0]), pad_before(kernel[1])),
            Padding::Valid => (0int, 0int),
        };
        if (padding == Padding::Same && (kernel[0] == 0 || kernel[1] == 0)) || height < kernel[0]
            || width < kernel[1] || height > usize::MAX || width > usize::MAX || places(
            height,
            kernel[0],
            stride,
        ) > usize::MAX || places(width, kernel[1], stride) > usize::MAX {
            None
        } else {
            Some(
                Geometry {
                    in_height: input[0],
                    in_width: input[1],
                    in_channels: input[2],
                    kernel_height: kernel[0],
                    kernel_width: kernel[1],
                    out_channels: kernel[3],
                    stride,
                    pad_top: top as usize,
                    pad_left: left as usize,
                    padded_height: height as usize,
                    padded_width: width as usize,
                    out_height: places(height, kernel[0], stride) as usize,
                    out_width: places(width, kernel[1], stride) as usize,
                },
            )
        }
    }
}

/// The length of an axis with the zeros around it, where a machine word holds it.
fn padded_length(length: usize, kernel: usize) -> (r: Option<usize>)
    requires
        kernel >= 1,
    ensures
        r is Some <==> padded(length, kernel) <= usize::MAX,
        r is Some ==> r->0 == padded(length, kernel),
{
    let before: usize = (kernel - 1) / 2;
    let odd: usize = if kernel % 2 == 0 {
        1
    } else {
        0
    };
    assert(odd == (kernel + 1) % 2);
    let zeros: usize = match before.checked_add(before) {
        Some(twice) => match twice.checked_add(odd) {
            Some(zeros) => zeros,
            None => {
                return None;
            },
        },
        None => {
            return None;
        },
    };
    length.checked_add(zeros)
}

/// The number of places of a kernel along an axis, where a machine word holds it.
fn count_places(length: usize, kernel: usize, stride: usize) -> (r: Option<usize>)
    requires
        stride >= 1,
        length >= kernel,
    ensures
        r is Some <==> places(length as int, kernel, stride) <= usize::MAX,
        r is Some ==> r->0 == places(length as int, kernel, stride),
{
    ((length - kernel) / stride).checked_add(1)
}

/// The geometry of a convolution, where there is one.
pub fn geometry(input: &Vec<usize>, kernel: &Vec<usize>, stride: usize, padding: Padding) -> (r:
    Option<Geometry>)
    ensures
        r == geometry_of(input@, kernel@, stride, padding),
{
    if input.len() != 3 || kernel.len() != 4 || input[2] != kernel[2] || stride == 0 {
        return None;
    }
    let mut height: usize = input[0];
    let mut width: usize = input[1];
    let mut top: usize = 0;
    let mut left: usize = 0;
    match padding {
        Padding::Same => {
            if kernel[0] == 0 || kernel[1] == 0 {
                return None;
            }
            height = match padded_length(input[0], kernel[0]) {
                Some(height) => height,
                None => {
                    return None;
                },
            };
            width = match padded_length(input[1], kernel[1]) {
                Some(width) => width,
                None => {
                    return None;
                },
            };
            top = (kernel[0] - 1) / 2;
            left = (kernel[1] - 1) / 2;
        },
        Padding::Valid => {},
    }
    if height < kernel[0] || width < kernel[1] {
        return None;
    }
    let out_height: usize = match count_places(height, kernel[0], stride) {
        Some(n) => n,
        None => {
            return None;
        },
    };
    let out_width: usize = match count_places(width, kernel[1], stride) {
        Some(n) => n,
        None => {
            return None;
        },
    };
    Some(
        Geometry {
            in_height: input[0],
            in_width: input[1],
            in_channels: input[2],
            kernel_height: kernel[0],
            kernel_width: kernel[1],
            out_channels: kernel[3],
            stride,
            pad_top: top,
            pad_left: left,
            padded_height: height,
            padded_width: width,
            out_height,
            out_width,
        },
    )
}

/// The position along an axis of the input that lies under position `offset` of the
/// kernel when the kernel is at place `place`, or nothing where a zero lies there.
pub open spec fn source_of(place: usize, offset: usize, stride: usize, before: usize, length: usize) -> Option<
    usize,
> {
    let at = place * stride + offset;
    if before <= at < before + length {
        Some((at - before) as usize)
    } else {
        None
    }
}

impl Geometry {
    /// The line of the input under line `offset` of the kernel at the place of output line
    /// `place`, or nothing where a line of zeros lies there.
    pub fn source_row(&self, place: usize, offset: usize) -> (r: Option<usize>)
        requires
            place * self.stride + offset <= usize::MAX,
        ensures
            r == source_of(place, offset, self.stride, self.pad_top, self.in_height),
    {
        source(place, offset, self.stride, self.pad_top, self.in_height)
    }

    /// The column of the input under column `offset` of the kernel at the place of output
    /// column `place`, or nothing where a column of zeros lies there.
    pub fn source_column(&self, place: usize, offset: usize) -> (r: Option<usize>)
        requires
            place * self.stride + offset <= usize::MAX,
        ensures
            r == source_of(place, offset, self.stride, self.pad_left, self.in_width),
    {
        source(place, offset, self.stride, self.pad_left, self.in_width)
    }
}

fn source(place: usize, offset: usize, stride: usize, before: usize, length: usize) -> (r: Option<
    usize,
>)
    requires
        place * stride + offset <= usize::MAX,
    ensures
        r == source_of(place, offset, stride, before, length),
{
    assert(place * stride >= 0) by (nonlinear_arith)
        requires
            place >= 0,
            stride >= 0,
    ;
    let at: usize = place * stride + offset;
    if at >= before && at - before < length {
        Some(at - before)
    } else {
        None
    }
}

/// With `Valid` padding the output of a convolution has the lengths that shape inference
/// gives it.
pub proof fn lemma_valid_geometry(input: Seq<usize>, kernel: Seq<usize>, stride: usize)
    requires
        geometry_of(input, kernel, stride, Padding::Valid) is Some,
    ensures
        conv2d_shape(input, kernel, stride, Padding::Valid) == Some(
            seq![
                geometry_of(input, kernel, stride, Padding::Valid)->0.out_height,
                geometry_of(input, kernel, stride, Padding::Valid)->0.out_width,
                kernel[3],
            ],
        ),
{
}

/// With `Same` padding the kernel has as many places along an axis as the axis has
/// positions that are a multiple of the stride; that is the length that shape inference
/// gives the output exactly where the stride divides the length of the axis.
pub proof fn lemma_same_places(length: usize, kernel: usize, stride: usize)
    requires
        kernel >= 1,
        stride >= 1,
        length >= 1,
    ensures
        places(padded(length, kernel), kernel, stride) == (length - 1) / (stride as int) + 1,
        (length % stride == 0) <==> places(padded(length, kernel), kernel, stride) == length
            / stride,
{
    let k = kernel as int;
    assert(2 * ((k - 1) / 2) + (k + 1) % 2 == k - 1);
    assert(padded(length, kernel) - kernel == length - 1);
    let l = length as int;
    let s = stride as int;
    vstd::arithmetic::div_mod::lemma_fundamental_div_mod(l, s);
    vstd::arithmetic::div_mod::lemma_fundamental_div_mod(l - 1, s);
    vstd::arithmetic::div_mod::lemma_mod_pos_bound(l, s);
    vstd::arithmetic::div_mod::lemma_mod_pos_bound(l - 1, s);
    let q = l / s;
    let r = l % s;
    let q1 = (l - 1) / s;
    let r1 = (l - 1) % s;
    assert(l == s * q + r);
    assert(l - 1 == s * q1 + r1);
    if r == 0 {
        // l - 1 = s * (q - 1) + (s - 1)
        assert(s * q1 + r1 == s * (q - 1) + (s - 1)) by (nonlinear_arith)
            requires
                l == s * q,
                l - 1 == s * q1 + r1,
        ;
        assert(q1 == q - 1) by (nonlinear_arith)
            requires
                s * q1 + r1 == s * (q - 1) + (s - 1),
                0 <= r1 < s,
                s >= 1,
        ;
    } else {
        // l - 1 = s * q + (r - 1)
        assert(q1 == q) by (nonlinear_arith)
            requires
                s * q1 + r1 == s * q + (r - 1),
                0 <= r1 < s,
                1 <= r < s,
        ;
    }
}

impl Geometry {
    /// The kernel fits into the input with the zeros around it, and the output has a
    /// place for each position of the kernel in it.
    pub open spec fn wf(self) -> bool {
        &&& self.stride >= 1
        &&& self.kernel_height <= self.padded_height
        &&& self.kernel_width <= self.padded_width
        &&& self.out_height == places(self.padded_height as int, self.kernel_height, self.stride)
        &&& self.out_width == places(self.padded_width as int, self.kernel_width, self.stride)
    }

    /// The geometry is well formed and `input` is an array of the shape that it reads.
    pub open spec fn reads(self, input: TensorView) -> bool {
        &&& self.wf()
        &&& input.wf()
        &&& input.shape == seq![self.in_height, self.in_width, self.in_channels]
    }
}

/// The number of elements of the input that lie under the kernel at one place.
pub open spec fn taps(g: Geometry) -> int {
    g.kernel_height * g.kernel_width * g.in_channels
}

/// The element of the input, given by its elements in row-major order, that lies in
/// channel `channel` under position `(ky, kx)` of the kernel at the place `(y, x)` of the
/// output: zero where the kernel lies over the zeros around the input.
pub open spec fn tap(
    g: Geometry,
    input: Seq<u32>,
    y: usize,
    x: usize,
    ky: usize,
    kx: usize,
    channel: int,
) -> u32 {
    match (
        source_of(y, ky, g.stride, g.pad_top, g.in_height),
        source_of(x, kx, g.stride, g.pad_left, g.in_width),
    ) {
        (Some(row), Some(column)) => input[(row * g.in_width + column) * g.in_channels + channel],
        _ => ZERO,
    }
}

/// The elements under one position of the kernel, channel by channel.
pub open spec fn cell(g: Geometry, input: Seq<u32>, y: usize, x: usize, ky: usize, kx: usize) -> Seq<
    u32,
> {
    Seq::new(g.in_channels as nat, |channel: int| tap(g, input, y, x, ky, kx, channel))
}

/// The elements under the first `upto` positions of line `ky` of the kernel.
pub open spec fn line(g: Geometry, input: Seq<u32>, y: usize, x: usize, ky: usize, upto: int) -> Seq<
    u32,
>
    decreases upto,
{
    if upto <= 0 {
        Seq::empty()
    } else {
        line(g, input, y, x, ky, upto - 1) + cell(g, input, y, x, ky, (upto - 1) as usize)
    }
}

/// The elements under the first `upto` lines of the kernel at the place `(y, x)`: the
/// patch of the input that the kernel covers, laid out like the kernel.
pub open spec fn patch(g: Geometry, input: Seq<u32>, y: usize, x: usize, upto: int) -> Seq<u32>
    decreases upto,
{
    if upto <= 0 {
        Seq::empty()
    } else {
        patch(g, input, y, x, upto - 1) + line(
            g,
            input,
            y,
            x,
            (upto - 1) as usize,
            g.kernel_width as int,
        )
    }
}

/// The patch at the place `(y, x)` as a vector.
pub open spec fn patch_vector(g: Geometry, input: Seq<u32>, y: usize, x: usize) -> TensorView {
    TensorView {
        shape: seq![taps(g) as usize],
        data: patch(g, input, y, x, g.kernel_height as int),
    }
}

/// The output at the place `(y, x)`, a number for each filter: the product of the matrix
/// of the filters and the patch.
pub open spec fn pixel<K: Fn(&Operation, &Vec<Tensor>) -> Tensor>(
    k: K,
    g: Geometry,
    filters: TensorView,
    input: Seq<u32>,
    y: usize,
    x: usize,
) -> TensorView {
    kernel_value(k, OperationView::MatVecMul, seq![filters, patch_vector(g, input, y, x)])
}

/// The output at the first `upto` places of line `y`.
pub open spec fn strip<K: Fn(&Operation, &Vec<Tensor>) -> Tensor>(
    k: K,
    g: Geometry,
    filters: TensorView,
    input: Seq<u32>,
    y: usize,
    upto: int,
) -> Seq<u32>
    decreases upto,
{
    if upto <= 0 {
        Seq::empty()
    } else {
        strip(k, g, filters, input, y, upto - 1) + pixel(
            k,
            g,
            filters,
            input,
            y,
            (upto - 1) as usize,
        ).data
    }
}

/// The output on the first `upto` lines.
pub open spec fn image<K: Fn(&Operation, &Vec<Tensor>) -> Tensor>(
    k: K,
    g: Geometry,
    filters: TensorView,
    input: Seq<u32>,
    upto: int,
) -> Seq<u32>
    decreases upto,
{
    if upto <= 0 {
        Seq::empty()
    } else {
        image(k, g, filters, input, upto - 1) + strip(
            k,
            g,
            filters,
            input,
            (upto - 1) as usize,
            g.out_width as int,
        )
    }
}

/// The matrix of the filters of a kernel: a line for each filter, which holds the
/// weights of the filter laid out like a patch.
pub open spec fn filter_matrix(g: Geometry, kernel: TensorView) -> Option<TensorView> {
    if taps(g) > usize::MAX {
        None
    } else {
        match reshape_of(kernel, seq![taps(g) as usize, g.out_channels]) {
            Some(flat) => transpose_of(flat),
            None => None,
        }
    }
}

/// The convolution of `input` with `kernel`, where the two have a geometry: at each place
/// of the output, the product of the matrix of the filters and the patch of the input
/// that the kernel covers there.
pub open spec fn convolved<K: Fn(&Operation, &Vec<Tensor>) -> Tensor>(
    k: K,
    input: TensorView,
    kernel: TensorView,
    stride: usize,
    padding: Padding,
) -> Option<TensorView> {
    match geometry_of(input.shape, kernel.shape, stride, padding) {
        Some(g) => match filter_matrix(g, kernel) {
            Some(filters) => {
                let data = image(k, g, filters, input.data, g.out_height as int);
                let shape = seq![g.out_height, g.out_width, g.out_channels];
                if data.len() == size(shape) {
                    Some(TensorView { shape, data })
                } else {
                    None
                }
            },
            None => None,
        },
        None => None,
    }
}

/// The kernel at a place of the output, and a position in it, lie inside the input with
/// the zeros around it.
proof fn lemma_place_within(length: int, kernel: int, stride: int, place: int, offset: int)
    requires
        stride >= 1,
        0 <= kernel <= length,
        0 <= place < (length - kernel) / stride + 1,
        0 <= offset < kernel,
    ensures
        0 <= place * stride + offset < length,
{
    let span = length - kernel;
    vstd::arithmetic::div_mod::lemma_fundamental_div_mod(span, stride);
    vstd::arithmetic::div_mod::lemma_mod_pos_bound(span, stride);
    let q = span / stride;
    assert(place * stride <= q * stride) by (nonlinear_arith)
        requires
            0 <= place <= q,
            stride >= 1,
    ;
    assert(place * stride >= 0) by (nonlinear_arith)
        requires
            0 <= place,
            stride >= 1,
    ;
    assert(stride * q == q * stride) by (nonlinear_arith);
}

/// The flat index of a position of an array of shape `(height, width, channels)` is an
/// index of its elements.
proof fn lemma_index_within(height: int, width: int, channels: int, row: int, column: int, channel: int)
    requires
        0 <= row < height,
        0 <= column < width,
        0 <= channel < channels,
    ensures
        0 <= row * width <= row * width + column < height * width,
        height * width <= height * width * channels,
        0 <= (row * width + column) * channels <= (row * width + column) * channels + channel
            < height * width * channels,
{
    assert(0 <= row * width && row * width + column < height * width) by (nonlinear_arith)
        requires
            0 <= row < height,
            0 <= column < width,
    ;
    let p = row * width + column;
    let n = height * width;
    assert(0 <= p * channels && p * channels + channel < n * channels && n <= n * channels)
        by (nonlinear_arith)
        requires
            0 <= p < n,
            0 <= channel < channels,
    ;
}

/// An array of three axes has as many elements as the product of their lengths.
proof fn lemma_size3(a: usize, b: usize, c: usize)
    ensures
        size(seq![a, b, c]) == a * b * c,
{
    let s = seq![a, b, c];
    assert(s.drop_last() =~= seq![a, b]);
    assert(seq![a, b].drop_last() =~= seq![a]);
    assert(seq![a].drop_last() =~= Seq::<usize>::empty());
    assert(size(Seq::<usize>::empty()) == 1);
    assert(size(seq![a]) == 1 * a);
    assert(size(seq![a, b]) == size(seq![a]) * b);
    assert(size(s) == size(seq![a, b]) * c);
}

/// The element of the input under a position of the kernel at a place of the output.
fn take_tap(g: &Geometry, input: &Tensor, y: usize, x: usize, ky: usize, kx: usize, channel: usize) -> (r:
    u32)
    requires
        g.reads(input@),
        y < g.out_height,
        x < g.out_width,
        ky < g.kernel_height,
        kx < g.kernel_width,
        channel < g.in_channels,
    ensures
        r == tap(*g, input@.data, y, x, ky, kx, channel as int),
{
    proof {
        lemma_place_within(
            g.padded_height as int,
            g.kernel_height as int,
            g.stride as int,
            y as int,
            ky as int,
        );
        lemma_place_within(
            g.padded_width as int,
            g.kernel_width as int,
            g.stride as int,
            x as int,
            kx as int,
        );
    }
    match (g.source_row(y, ky), g.source_column(x, kx)) {
        (Some(row), Some(column)) => {
            proof {
                lemma_index_within(
                    g.in_height as int,
                    g.in_width as int,
                    g.in_channels as int,
                    row as int,
                    column as int,
                    channel as int,
                );
                lemma_size3(g.in_height, g.in_width, g.in_channels);
            }
            input.data()[(row * g.in_width + column) * g.in_channels + channel]
        },
        _ => ZERO,
    }
}

/// What a line of the kernel covers has an element for each of its positions and each
/// channel.
proof fn lemma_line_len(g: Geometry, input: Seq<u32>, y: usize, x: usize, ky: usize, upto: int)
    requires
        0 <= upto,
    ensures
        line(g, input, y, x, ky, upto).len() == upto * g.in_channels,
    decreases upto,
{
    if upto > 0 {
        lemma_line_len(g, input, y, x, ky, upto - 1);
        assert((upto - 1) * g.in_channels + g.in_channels == upto * g.in_channels)
            by (nonlinear_arith);
    } else {
        assert(0 * g.in_channels == 0);
    }
}

/// A patch has an element for each weight of a filter.
proof fn lemma_patch_len(g: Geometry, input: Seq<u32>, y: usize, x: usize, upto: int)
    requires
        0 <= upto,
    ensures
        patch(g, input, y, x, upto).len() == upto * g.kernel_width * g.in_channels,
    decreases upto,
{
    if upto > 0 {
        lemma_patch_len(g, input, y, x, upto - 1);
        lemma_line_len(g, input, y, x, (upto - 1) as usize, g.kernel_width as int);
        assert((upto - 1) * g.kernel_width * g.in_channels + g.kernel_width * g.in_channels == upto
            * g.kernel_width * g.in_channels) by (nonlinear_arith);
    } else {
        assert(0 * g.kernel_width * g.in_channels == 0) by (nonlinear_arith);
    }
}

/// The elements under one position of the kernel, appended to `data`.
fn append_cell(data: &mut Vec<u32>, g: &Geometry, input: &Tensor, y: usize, x: usize, ky: usize, kx: usize)
    requires
        g.reads(input@),
        y < g.out_height,
        x < g.out_width,
        ky < g.kernel_height,
        kx < g.kernel_width,
    ensures
        final(data)@ == old(data)@ + cell(*g, input@.data, y, x, ky, kx),
{
    let ghost whole = cell(*g, input@.data, y, x, ky, kx);
    let mut channel: usize = 0;
    while channel < g.in_channels
        invariant
            g.reads(input@),
            y < g.out_height,
            x < g.out_width,
            ky < g.kernel_height,
            kx < g.kernel_width,
            channel <= g.in_channels,
            whole == cell(*g, input@.data, y, x, ky, kx),
            data@ == old(data)@ + whole.take(channel as int),
        decreases g.in_channels - channel,
    {
        let element = take_tap(g, input, y, x, ky, kx, channel);
        data.push(element);
        assert(data@ =~= old(data)@ + whole.take(channel + 1));
        channel += 1;
    }
    assert(whole.take(g.in_channels as int) =~= whole);
}

/// The patch of the input that the kernel covers at the place `(y, x)`.
fn take_patch(g: &Geometry, input: &Tensor, y: usize, x: usize) -> (data: Vec<u32>)
    requires
        g.reads(input@),
        y < g.out_height,
        x < g.out_width,
    ensures
        data@ == patch(*g, input@.data, y, x, g.kernel_height as int),
{
    let mut data: Vec<u32> = Vec::new();
    let mut ky: usize = 0;
    while ky < g.kernel_height
        invariant
            g.reads(input@),
            y < g.out_height,
            x < g.out_width,
            ky <= g.kernel_height,
            data@ == patch(*g, input@.data, y, x, ky as int),
        decreases g.kernel_height - ky,
    {
        let ghost above = data@;
        let mut kx: usize = 0;
        while kx < g.kernel_width
            invariant
                g.reads(input@),
                y < g.out_height,
                x < g.out_width,
                ky < g.kernel_height,
                kx <= g.kernel_width,
                data@ == above + line(*g, input@.data, y, x, ky, kx as int),
            decreases g.kernel_width - kx,
        {
            append_cell(&mut data, g, input, y, x, ky, kx);
            assert(data@ =~= above + line(*g, input@.data, y, x, ky, kx + 1));
            kx += 1;
        }
        ky += 1;
    }
    data
}

/// The output at the place `(y, x)`: the kernel's product of the matrix of the filters,
/// the first of `operands`, and the patch, which is made the second.
fn take_pixel<K: Fn(&Operation, &Vec<Tensor>) -> Tensor>(
    kernel: &K,
    g: &Geometry,
    operands: &mut Vec<Tensor>,
    input: &Tensor,
    y: usize,
    x: usize,
) -> (r: Tensor)
    requires
        kernel_ok(*kernel),
        g.reads(input@),
        taps(*g) <= usize::MAX,
        old(operands)@.len() == 2,
        old(operands)@[0]@.wf(),
        old(operands)@[0]@.shape == seq![g.out_channels, taps(*g) as usize],
        y < g.out_height,
        x < g.out_width,
    ensures
        r@ == pixel(*kernel, *g, old(operands)@[0]@, input@.data, y, x),
        r@.wf(),
        r@.shape == seq![g.out_channels],
        final(operands)@.len() == 2,
        final(operands)@[0] == old(operands)@[0],
{
    operands[1] = Tensor::vector(take_patch(g, input, y, x));
    proof {
        let filters = operands@[0]@;
        let vector = operands@[1]@;
        lemma_patch_len(*g, input@.data, y, x, g.kernel_height as int);
        assert(vector == patch_vector(*g, input@.data, y, x));
        let rows = seq![g.out_channels];
        assert(rows.drop_last() =~= Seq::<usize>::empty());
        assert(size(Seq::<usize>::empty()) == 1);
        assert(size(rows) == 1 * g.out_channels);
        assert(views(operands@) =~= seq![filters, vector]);
        assert(shapes(views(operands@)) =~= seq![filters.shape, vector.shape]);
        assert(shapes(views(operands@))[0] == filters.shape);
        assert forall|j: int| 0 <= j < views(operands@).len() implies (#[trigger] views(
            operands@,
        )[j]).wf() by {
            if j == 0 {
                assert(views(operands@)[0] == filters);
            } else {
                assert(views(operands@)[1] == vector);
            }
        }
    }
    invoke(kernel, &Operation::MatVecMul, operands)
}

/// The elements of `more`, appended to `data`.
fn append_all(data: &mut Vec<u32>, more: &Vec<u32>)
    ensures
        final(data)@ == old(data)@ + more@,
{
    let mut i: usize = 0;
    while i < more.len()
        invariant
            i <= more.len(),
            data@ == old(data)@ + more@.take(i as int),
        decreases more.len() - i,
    {
        data.push(more[i]);
        assert(data@ =~= old(data)@ + more@.take(i + 1));
        i += 1;
    }
    assert(more@.take(more.len() as int) =~= more@);
}

/// The matrix of the filters of a kernel, where there is one.
fn filters_of(g: &Geometry, weights: &Tensor) -> (r: Option<(Tensor, usize)>)
    requires
        weights@.wf(),
    ensures
        r is Some <==> filter_matrix(*g, weights@) is Some,
        r matches Some(found) ==> Some(found.0@) == filter_matrix(*g, weights@) && found.0@.wf()
            && found.1 == taps(*g),
{
    let count: usize = if g.in_channels == 0 {
        assert(g.kernel_height * g.kernel_width * 0 == 0) by (nonlinear_arith);
        0
    } else {
        let area: usize = match g.kernel_height.checked_mul(g.kernel_width) {
            Some(area) => area,
            None => {
                assert(g.kernel_height * g.kernel_width * g.in_channels > usize::MAX)
                    by (nonlinear_arith)
                    requires
                        g.kernel_height * g.kernel_width > usize::MAX,
                        g.in_channels >= 1,
                ;
                return None;
            },
        };
        match area.checked_mul(g.in_channels) {
            Some(count) => count,
            None => {
                return None;
            },
        }
    };
    let mut shape: Vec<usize> = Vec::new();
    shape.push(count);
    shape.push(g.out_channels);
    assert(shape@ =~= seq![count, g.out_channels]);
    match reshape(weights, &shape) {
        Some(flat) => match transpose(&flat) {
            Some(filters) => Some((filters, count)),
            None => None,
        },
        None => None,
    }
}

/// The convolution of `input` with `weights`, where the two have a geometry; the kernel
/// multiplies the matrix of the filters with each patch.
pub fn convolve<K: Fn(&Operation, &Vec<Tensor>) -> Tensor>(
    kernel: &K,
    input: &Tensor,
    weights: &Tensor,
    stride: usize,
    padding: Padding,
) -> (r: Option<Tensor>)
    requires
        kernel_ok(*kernel),
        input@.wf(),
        weights@.wf(),
    ensures
        r is Some <==> convolved(*kernel, input@, weights@, stride, padding) is Some,
        r matches Some(out) ==> Some(out@) == convolved(*kernel, input@, weights@, stride, padding)
            && out@.wf(),
{
    let g = match geometry(input.shape(), weights.shape(), stride, padding) {
        Some(g) => g,
        None => {
            return None;
        },
    };
    let found = match filters_of(&g, weights) {
        Some(found) => found,
        None => {
            return None;
        },
    };
    let filters = found.0;
    let count = found.1;
    let mut operands: Vec<Tensor> = Vec::new();
    proof {
        assert(input@.shape =~= seq![g.in_height, g.in_width, g.in_channels]);
        assert(filters@.shape =~= seq![g.out_channels, count]);
    }
    operands.push(filters);
    operands.push(Tensor::vector(Vec::new()));
    let ghost filters = operands@[0];
    let mut data: Vec<u32> = Vec::new();
    let mut y: usize = 0;
    while y < g.out_height
        invariant
            kernel_ok(*kernel),
            g.reads(input@),
            count == taps(g),
            operands@.len() == 2,
            operands@[0] == filters,
            filters@.wf(),
            filters@.shape == seq![g.out_channels, count],
            y <= g.out_height,
            data@ == image(*kernel, g, filters@, input@.data, y as int),
        decreases g.out_height - y,
    {
        let ghost above = data@;
        let mut x: usize = 0;
        while x < g.out_width
            invariant
                kernel_ok(*kernel),
                g.reads(input@),
                count == taps(g),
                operands@.len() == 2,
                operands@[0] == filters,
                filters@.wf(),
                filters@.shape == seq![g.out_channels, count],
                y < g.out_height,
                x <= g.out_width,
                data@ == above + strip(*kernel, g, filters@, input@.data, y, x as int),
            decreases g.out_width - x,
        {
            let found = take_pixel(kernel, &g, &mut operands, input, y, x);
            append_all(&mut data, found.data());
            assert(data@ =~= above + strip(*kernel, g, filters@, input@.data, y, x + 1));
            x += 1;
        }
        y += 1;
    }
    let mut shape: Vec<usize> = Vec::new();
    shape.push(g.out_height);
    shape.push(g.out_width);
    shape.push(g.out_channels);
    assert(shape@ =~= seq![g.out_height, g.out_width, g.out_channels]);
    Tensor::new(shape, data)
}

} // verus!
