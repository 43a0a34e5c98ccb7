//! The MNIST file formats: image files and label files as bytes, and the dataset that a
//! pair of them makes.

use vstd::prelude::*;
use vstd::string::StringExecFns;
use vstd::slice::slice_subrange;
use byteorder::{BigEndian, ByteOrder};
use crate::scalar::{count_bits, scalar_count};
use crate::tensor::{Tensor, TensorView, ONE, ZERO};

verus! {

/// The number that leads an image file.
pub const IMAGE_MAGIC: u32 = 0x0000_0803;

/// The number that leads a label file.
pub const LABEL_MAGIC: u32 = 0x0000_0801;

/// Why a file or a pair of files was refused.
#[derive(Clone, Copy, Debug, PartialEq, Eq, Structural)]
pub enum DatasetError {
    /// The file ends before what it announces.
    UnexpectedEof,
    /// An image file does not start with the number that leads image files.
    InvalidImageMagic,
    /// A label file does not start with the number that leads label files.
    InvalidLabelMagic,
    /// The image file and the label file hold different numbers of items.
    MismatchedCounts { images: usize, labels: usize },
}

impl DatasetError {
    /// The description of the error.
    pub open spec fn text(self) -> Seq<char> {
        match self {
            DatasetError::UnexpectedEof => "failed to fill whole buffer"@,
            DatasetError::InvalidImageMagic => "invalid magic for mnist image file"@,
            DatasetError::InvalidLabelMagic => "invalid magic for mnist label file"@,
            DatasetError::MismatchedCounts { images, labels } => {
                "mismatched image and label counts for mnist dataset ("@
                    + crate::algebra::display::decimal_text(images as nat) + " and "@
                    + crate::algebra::display::decimal_text(labels as nat) + ")"@
            },
        }
    }

    /// A description of the error for people.
    pub fn message(&self) -> (r: String)
        ensures
            r@ == self.text(),
    {
        match self {
            DatasetError::UnexpectedEof => String::from_str("failed to fill whole buffer"),
            DatasetError::InvalidImageMagic => String::from_str(
                "invalid magic for mnist image file",
            ),
            DatasetError::InvalidLabelMagic => String::from_str(
                "invalid magic for mnist label file",
            ),
            DatasetError::MismatchedCounts { images, labels } => {
                let mut text = String::from_str(
                    "mismatched image and label counts for mnist dataset (",
                );
                crate::algebra::display::append_decimal(&mut text, *images);
                text.append(" and ");
                crate::algebra::display::append_decimal(&mut text, *labels);
                text.append(")");
                text
            },
        }
    }
}

/// The number that four bytes spell with the most significant byte first.
pub open spec fn big_endian(bytes: Seq<u8>) -> int
    recommends
        bytes.len() >= 4,
{
    bytes[0] * 0x100_0000 + bytes[1] * 0x1_0000 + bytes[2] * 0x100 + bytes[3]
}

/// `byteorder::BigEndian::read_u32` (of the trait `ByteOrder`): the number that the first
/// four bytes of `buf` spell with the most significant byte first. It panics on fewer than
/// four bytes, which the precondition excludes.
#[verifier::external_body]
fn read_u32(buf: &[u8]) -> (r: u32)
    requires
        buf@.len() >= 4,
    ensures
        r == big_endian(buf@),
{
    BigEndian::read_u32(buf)
}

/// The number that the four bytes of `file` from `position` on spell, if there are four.
fn take_u32(file: &Vec<u8>, position: usize) -> (r: Option<u32>)
    requires
        position <= file.len(),
    ensures
        r is Some <==> position + 4 <= file.len(),
        r is Some ==> r->0 == big_endian(file@.subrange(position as int, position + 4)),
{
    if file.len() - position < 4 {
        return None;
    }
    let word = slice_subrange(file.as_slice(), position, position + 4);
    Some(read_u32(word))
}

/// A greyscale image: `rows` lines of `cols` pixels each, line after line.
#[derive(Debug)]
pub struct Image {
    rows: usize,
    cols: usize,
    pixels: Vec<u8>,
}

/// An image as mathematical values.
pub struct ImageView {
    pub rows: usize,
    pub cols: usize,
    pub pixels: Seq<u8>,
}

impl View for Image {
    type V = ImageView;

    closed spec fn view(&self) -> ImageView {
        ImageView { rows: self.rows, cols: self.cols, pixels: self.pixels@ }
    }
}

impl ImageView {
    /// There is one pixel for each position.
    pub open spec fn wf(self) -> bool {
        self.pixels.len() == self.rows * self.cols
    }
}

impl Image {
    /// The number of lines.
    pub fn rows(&self) -> (r: usize)
        ensures
            r == self@.rows,
    {
        self.rows
    }

    /// The number of pixels in a line.
    pub fn cols(&self) -> (r: usize)
        ensures
            r == self@.cols,
    {
        self.cols
    }

    /// The pixels, line after line.
    pub fn pixels(&self) -> (r: &Vec<u8>)
        ensures
            r@ == self@.pixels,
    {
        &self.pixels
    }

    /// The pixel in line `row` at place `col`.
    pub fn get(&self, row: usize, col: usize) -> (r: u8)
        requires
            self@.wf(),
            row < self@.rows,
            col < self@.cols,
        ensures
            r == self@.pixels[row * self@.cols + col],
    {
        proof {
            let (r, c, rows, cols) = (row as int, col as int, self.rows as int, self.cols as int);
            assert(0 <= r * cols && r * cols + c < rows * cols) by (nonlinear_arith)
                requires
                    0 <= r < rows,
                    0 <= c < cols,
            ;
            assert(self.pixels.len() == rows * cols);
        }
        self.pixels[row * self.cols + col]
    }
}

/// An image file that is being read: a header of four numbers (the number that leads
/// image files, the number of images, of lines in an image, of pixels in a line), each of
/// four bytes with the most significant first; after it the images, a byte for each pixel.
pub struct MNISTImageFile {
    file: Vec<u8>,
    position: usize,
    images_remaining: usize,
    number_of_rows: usize,
    number_of_columns: usize,
}

/// An image file that is being read, as mathematical values.
pub struct ImageFileView {
    /// The bytes that were not read yet.
    pub rest: Seq<u8>,
    /// The number of images that the header announced and that were not read yet.
    pub images_remaining: usize,
    pub number_of_rows: usize,
    pub number_of_columns: usize,
}

impl View for MNISTImageFile {
    type V = ImageFileView;

    closed spec fn view(&self) -> ImageFileView {
        ImageFileView {
            rest: self.file@.subrange(self.position as int, self.file.len() as int),
            images_remaining: self.images_remaining,
            number_of_rows: self.number_of_rows,
            number_of_columns: self.number_of_columns,
        }
    }
}

/// What the header of an image file says, or why the file is refused: the file has to
/// hold the leading number, which has to be the one of image files, and the three numbers
/// after it.
pub open spec fn image_header(file: Seq<u8>) -> Result<ImageFileView, DatasetError> {
    if file.len() < 4 {
        Err(DatasetError::UnexpectedEof)
    } else if big_endian(file) != IMAGE_MAGIC {
        Err(DatasetError::InvalidImageMagic)
    } else if file.len() < 16 {
        Err(DatasetError::UnexpectedEof)
    } else {
        Ok(
            ImageFileView {
                rest: file.subrange(16, file.len() as int),
                images_remaining: big_endian(file.subrange(4, 8)) as usize,
                number_of_rows: big_endian(file.subrange(8, 12)) as usize,
                number_of_columns: big_endian(file.subrange(12, 16)) as usize,
            },
        )
    }
}

/// The images that are left in an image file, or the error that reading them runs into.
pub open spec fn images_left(file: ImageFileView) -> Result<Seq<ImageView>, DatasetError>
    decreases file.images_remaining,
{
    let size = file.number_of_rows * file.number_of_columns;
    if file.images_remaining == 0 {
        Ok(Seq::empty())
    } else if size > file.rest.len() {
        Err(DatasetError::UnexpectedEof)
    } else {
        let first = ImageView {
            rows: file.number_of_rows,
            cols: file.number_of_columns,
            pixels: file.rest.subrange(0, size),
        };
        let after = ImageFileView {
            rest: file.rest.subrange(size, file.rest.len() as int),
            images_remaining: (file.images_remaining - 1) as usize,
            number_of_rows: file.number_of_rows,
            number_of_columns: file.number_of_columns,
        };
        match images_left(after) {
            Ok(others) => Ok(seq![first] + others),
            Err(e) => Err(e),
        }
    }
}

impl MNISTImageFile {
    /// The invariant of the reader.
    pub closed spec fn wf(&self) -> bool {
        self.position <= self.file.len()
    }

    /// Starts to read an image file: reads its header.
    pub fn new(file: Vec<u8>) -> (r: Result<MNISTImageFile, DatasetError>)
        ensures
            match r {
                Ok(reader) => reader.wf() && image_header(file@) == Ok::<
                    ImageFileView,
                    DatasetError,
                >(reader@),
                Err(e) => image_header(file@) == Err::<ImageFileView, DatasetError>(e),
            },
    {
        let magic: u32 = match take_u32(&file, 0) {
            Some(magic) => magic,
            None => {
                return Err(DatasetError::UnexpectedEof);
            },
        };
        proof {
            assert(file@.subrange(0, 4)[0] == file@[0]);
            assert(file@.subrange(0, 4)[1] == file@[1]);
            assert(file@.subrange(0, 4)[2] == file@[2]);
            assert(file@.subrange(0, 4)[3] == file@[3]);
        }
        if magic != IMAGE_MAGIC {
            return Err(DatasetError::InvalidImageMagic);
        }
        let number_of_images: u32 = match take_u32(&file, 4) {
            Some(n) => n,
            None => {
                return Err(DatasetError::UnexpectedEof);
            },
        };
        let number_of_rows: u32 = match take_u32(&file, 8) {
            Some(n) => n,
            None => {
                return Err(DatasetError::UnexpectedEof);
            },
        };
        let number_of_columns: u32 = match take_u32(&file, 12) {
            Some(n) => n,
            None => {
                return Err(DatasetError::UnexpectedEof);
            },
        };
        Ok(
            MNISTImageFile {
                file,
                position: 16,
                images_remaining: number_of_images as usize,
                number_of_rows: number_of_rows as usize,
                number_of_columns: number_of_columns as usize,
            },
        )
    }

    /// The next image: nothing when all the images that the header announced were read;
    /// an error, with the reader left as it is, when the file ends before the image does.
    pub fn next(&mut self) -> (r: Option<Result<Image, DatasetError>>)
        requires
            old(self).wf(),
        ensures
            final(self).wf(),
            final(self)@.number_of_rows == old(self)@.number_of_rows,
            final(self)@.number_of_columns == old(self)@.number_of_columns,
            match r {
                None => old(self)@.images_remaining == 0 && final(self)@ == old(self)@,
                Some(Ok(image)) => {
                    let size = old(self)@.number_of_rows * old(self)@.number_of_columns;
                    &&& old(self)@.images_remaining > 0
                    &&& size <= old(self)@.rest.len()
                    &&& image@.wf()
                    &&& image@.rows == old(self)@.number_of_rows
                    &&& image@.cols == old(self)@.number_of_columns
                    &&& image@.pixels == old(self)@.rest.subrange(0, size)
                    &&& final(self)@.rest == old(self)@.rest.subrange(
                        size,
                        old(self)@.rest.len() as int,
                    )
                    &&& final(self)@.images_remaining == old(self)@.images_remaining - 1
                },
                Some(Err(e)) => {
                    &&& e == DatasetError::UnexpectedEof
                    &&& old(self)@.images_remaining > 0
                    &&& old(self)@.number_of_rows * old(self)@.number_of_columns > old(
                        self,
                    )@.rest.len()
                    &&& final(self)@ == old(self)@
                },
            },
    {
        if self.images_remaining == 0 {
            return None;
        }
        let available: usize = self.file.len() - self.position;
        let size: usize = match self.number_of_rows.checked_mul(self.number_of_columns) {
            Some(size) => size,
            None => {
                return Some(Err(DatasetError::UnexpectedEof));
            },
        };
        if size > available {
            return Some(Err(DatasetError::UnexpectedEof));
        }
        let end: usize = self.position + size;
        let mut pixels: Vec<u8> = Vec::new();
        let mut i: usize = self.position;
        while i < end
            invariant
                self.position <= i <= end,
                end <= self.file.len(),
                pixels.len() == i - self.position,
                forall|j: int| 0 <= j < pixels.len() ==> pixels[j] == self.file[self.position + j],
            decreases end - i,
        {
            pixels.push(self.file[i]);
            i += 1;
        }
        let image = Image { rows: self.number_of_rows, cols: self.number_of_columns, pixels };
        proof {
            assert(image@.pixels =~= old(self)@.rest.subrange(0, size as int));
        }
        self.position = end;
        self.images_remaining -= 1;
        proof {
            assert(self@.rest =~= old(self)@.rest.subrange(
                size as int,
                old(self)@.rest.len() as int,
            ));
        }
        Some(Ok(image))
    }
}

/// A label file that is being read: a header of two numbers (the number that leads label
/// files, the number of labels), each of four bytes with the most significant first; after
/// it the labels, a byte each.
pub struct MNISTLabelFile {
    bytes: Vec<u8>,
    position: usize,
    labels_remaining: usize,
}

/// A label file that is being read, as mathematical values.
pub struct LabelFileView {
    /// The bytes that were not read yet.
    pub rest: Seq<u8>,
    /// The number of labels that the header announced and that were not asked for yet.
    pub labels_remaining: usize,
}

impl View for MNISTLabelFile {
    type V = LabelFileView;

    closed spec fn view(&self) -> LabelFileView {
        LabelFileView {
            rest: self.bytes@.subrange(self.position as int, self.bytes.len() as int),
            labels_remaining: self.labels_remaining,
        }
    }
}

/// What the header of a label file says, or why the file is refused: the file has to hold
/// the leading number, which has to be the one of label files, and the number after it.
pub open spec fn label_header(file: Seq<u8>) -> Result<LabelFileView, DatasetError> {
    if file.len() < 4 {
        Err(DatasetError::UnexpectedEof)
    } else if big_endian(file) != LABEL_MAGIC {
        Err(DatasetError::InvalidLabelMagic)
    } else if file.len() < 8 {
        Err(DatasetError::UnexpectedEof)
    } else {
        Ok(
            LabelFileView {
                rest: file.subrange(8, file.len() as int),
                labels_remaining: big_endian(file.subrange(4, 8)) as usize,
            },
        )
    }
}

/// The labels that are left in a label file: as many as the header announced and were not
/// asked for yet, or as many as the file holds, if those are fewer.
pub open spec fn labels_left(file: LabelFileView) -> Seq<u8> {
    if file.labels_remaining <= file.rest.len() {
        file.rest.subrange(0, file.labels_remaining as int)
    } else {
        file.rest
    }
}

impl MNISTLabelFile {
    /// The invariant of the reader.
    pub closed spec fn wf(&self) -> bool {
        self.position <= self.bytes.len()
    }

    /// Starts to read a label file: reads its header.
    pub fn new(file: Vec<u8>) -> (r: Result<MNISTLabelFile, DatasetError>)
        ensures
            match r {
                Ok(reader) => reader.wf() && label_header(file@) == Ok::<
                    LabelFileView,
                    DatasetError,
                >(reader@),
                Err(e) => label_header(file@) == Err::<LabelFileView, DatasetError>(e),
            },
    {
        let magic: u32 = match take_u32(&file, 0) {
            Some(magic) => magic,
            None => {
                return Err(DatasetError::UnexpectedEof);
            },
        };
        proof {
            assert(file@.subrange(0, 4)[0] == file@[0]);
            assert(file@.subrange(0, 4)[1] == file@[1]);
            assert(file@.subrange(0, 4)[2] == file@[2]);
            assert(file@.subrange(0, 4)[3] == file@[3]);
        }
        if magic != LABEL_MAGIC {
            return Err(DatasetError::InvalidLabelMagic);
        }
        let number_of_labels: u32 = match take_u32(&file, 4) {
            Some(n) => n,
            None => {
                return Err(DatasetError::UnexpectedEof);
            },
        };
        Ok(MNISTLabelFile { bytes: file, position: 8, labels_remaining: number_of_labels as usize })
    }

    /// The next label: nothing when all the labels that the header announced were asked
    /// for, and nothing when the file has no byte left, though the label counts as asked
    /// for.
    pub fn next(&mut self) -> (r: Option<Result<u8, DatasetError>>)
        requires
            old(self).wf(),
        ensures
            final(self).wf(),
            match r {
                None => {
                    ||| old(self)@.labels_remaining == 0 && final(self)@ == old(self)@
                    ||| {
                        &&& old(self)@.labels_remaining > 0
                        &&& old(self)@.rest.len() == 0
                        &&& final(self)@.rest == old(self)@.rest
                        &&& final(self)@.labels_remaining == old(self)@.labels_remaining - 1
                    }
                },
                Some(Ok(label)) => {
                    &&& old(self)@.labels_remaining > 0
                    &&& old(self)@.rest.len() > 0
                    &&& label == old(self)@.rest[0]
                    &&& final(self)@.rest == old(self)@.rest.subrange(
                        1,
                        old(self)@.rest.len() as int,
                    )
                    &&& final(self)@.labels_remaining == old(self)@.labels_remaining - 1
                },
                Some(Err(_)) => false,
            },
    {
        if self.labels_remaining == 0 {
            return None;
        }
        self.labels_remaining -= 1;
        if self.position < self.bytes.len() {
            let label: u8 = self.bytes[self.position];
            self.position += 1;
            proof {
                assert(self@.rest =~= old(self)@.rest.subrange(1, old(self)@.rest.len() as int));
            }
            Some(Ok(label))
        } else {
            proof {
                assert(self@.rest =~= old(self)@.rest);
            }
            None
        }
    }
}

/// What a pair of an image file and a label file holds, or why the pair is refused: both
/// headers have to be accepted, every announced image has to be there, and there have to
/// be as many labels as images.
pub open spec fn parsed(images: Seq<u8>, labels: Seq<u8>) -> Result<
    (Seq<ImageView>, Seq<u8>),
    DatasetError,
> {
    match image_header(images) {
        Err(e) => Err(e),
        Ok(image_file) => match images_left(image_file) {
            Err(e) => Err(e),
            Ok(pictures) => match label_header(labels) {
                Err(e) => Err(e),
                Ok(label_file) => {
                    let marks = labels_left(label_file);
                    if pictures.len() != marks.len() {
                        Err(
                            DatasetError::MismatchedCounts {
                                images: pictures.len() as usize,
                                labels: marks.len() as usize,
                            },
                        )
                    } else {
                        Ok((pictures, marks))
                    }
                },
            },
        },
    }
}

/// The MNIST dataset: images of handwritten digits, each with the digit as its label.
pub struct MNIST {
    images: Vec<Image>,
    labels: Vec<u8>,
    categories: Option<usize>,
}

/// A dataset as mathematical values.
pub struct DatasetView {
    pub images: Seq<ImageView>,
    pub labels: Seq<u8>,
    /// The length of the targets, where they are one-hot vectors; none where they are
    /// the labels as scalars.
    pub categories: Option<usize>,
}

impl View for MNIST {
    type V = DatasetView;

    closed spec fn view(&self) -> DatasetView {
        DatasetView {
            images: Seq::new(self.images.len() as nat, |i: int| self.images[i]@),
            labels: self.labels@,
            categories: self.categories,
        }
    }
}

impl DatasetView {
    /// The invariant of a dataset: each image has a label, and each label is a position of
    /// the one-hot vectors where the targets are such.
    pub open spec fn wf(self) -> bool {
        &&& self.images.len() == self.labels.len()
        &&& forall|i: int| 0 <= i < self.images.len() ==> (#[trigger] self.images[i]).wf()
        &&& self.categories matches Some(n) ==> forall|i: int|
            0 <= i < self.labels.len() ==> (#[trigger] self.labels[i]) < n
    }

    /// The target of item `i`: its label as a scalar, or the vector that is one at the
    /// label and zero elsewhere.
    pub open spec fn target(self, i: int) -> TensorView {
        match self.categories {
            None => TensorView::filled(Seq::empty(), count_bits(self.labels[i] as nat) as u32),
            Some(n) => TensorView {
                shape: seq![n],
                data: Seq::new(
                    n as nat,
                    |j: int|
                        if j == self.labels[i] {
                            ONE
                        } else {
                            ZERO
                        },
                ),
            },
        }
    }
}

impl MNIST {
    /// The dataset that an image file and a label file make. An input is an image with its
    /// pixels as bytes, from 0 for black to 255 for white; a target is the label of the
    /// image as a scalar.
    pub fn new(images: Vec<u8>, labels: Vec<u8>) -> (r: Result<MNIST, DatasetError>)
        ensures
            match r {
                Ok(dataset) => {
                    &&& dataset@.wf()
                    &&& dataset@.categories is None
                    &&& parsed(images@, labels@) == Ok::<(Seq<ImageView>, Seq<u8>), DatasetError>(
                        (dataset@.images, dataset@.labels),
                    )
                },
                Err(e) => parsed(images@, labels@) == Err::<
                    (Seq<ImageView>, Seq<u8>),
                    DatasetError,
                >(e),
            },
    {
        let mut image_file = match MNISTImageFile::new(images) {
            Ok(file) => file,
            Err(e) => {
                return Err(e);
            },
        };
        let ghost first = image_file@;
        let mut pictures: Vec<Image> = Vec::new();
        proof {
            assert(Seq::<ImageView>::empty() + images_left(first)->Ok_0 =~= images_left(
                first,
            )->Ok_0);
        }
        loop
            invariant
                image_file.wf(),
                image_header(images@) == Ok::<ImageFileView, DatasetError>(first),
                forall|i: int| 0 <= i < pictures.len() ==> (#[trigger] pictures[i])@.wf(),
                match images_left(image_file@) {
                    Ok(others) => images_left(first) == Ok::<Seq<ImageView>, DatasetError>(
                        Seq::new(pictures.len() as nat, |i: int| pictures[i]@) + others,
                    ),
                    Err(e) => images_left(first) == Err::<Seq<ImageView>, DatasetError>(e),
                },
            ensures
                image_file@.images_remaining == 0,
                forall|i: int| 0 <= i < pictures.len() ==> (#[trigger] pictures[i])@.wf(),
                images_left(first) == Ok::<Seq<ImageView>, DatasetError>(
                    Seq::new(pictures.len() as nat, |i: int| pictures[i]@),
                ),
            decreases image_file@.images_remaining,
        {
            let ghost before = image_file@;
            let ghost so_far = Seq::new(pictures.len() as nat, |i: int| pictures[i]@);
            match image_file.next() {
                None => {
                    proof {
                        assert(so_far + Seq::<ImageView>::empty() =~= so_far);
                    }
                    break ;
                },
                Some(Err(e)) => {
                    proof {
                        assert(images_left(before) == Err::<Seq<ImageView>, DatasetError>(e));
                    }
                    return Err(e);
                },
                Some(Ok(image)) => {
                    proof {
                        let others = images_left(image_file@);
                        if others is Ok {
                            assert(so_far.push(image@) + others->Ok_0 =~= so_far + (seq![image@]
                                + others->Ok_0));
                        }
                    }
                    pictures.push(image);
                    proof {
                        assert(Seq::new(pictures.len() as nat, |i: int| pictures[i]@) =~= so_far.push(
                            image@,
                        ));
                    }
                },
            }
        }
        let mut label_file = match MNISTLabelFile::new(labels) {
            Ok(file) => file,
            Err(e) => {
                return Err(e);
            },
        };
        let ghost start = label_file@;
        let mut marks: Vec<u8> = Vec::new();
        proof {
            assert(marks@ + labels_left(start) =~= labels_left(start));
        }
        loop
            invariant
                label_file.wf(),
                label_header(labels@) == Ok::<LabelFileView, DatasetError>(start),
                marks@ + labels_left(label_file@) == labels_left(start),
            ensures
                marks@ == labels_left(start),
            decreases label_file@.labels_remaining,
        {
            let ghost before = label_file@;
            match label_file.next() {
                Some(Ok(label)) => {
                    proof {
                        assert(marks@.push(label) + labels_left(label_file@) =~= marks@
                            + labels_left(before));
                    }
                    marks.push(label);
                },
                Some(Err(e)) => {
                    return Err(e);
                },
                None => {
                    proof {
                        assert(labels_left(before) =~= Seq::<u8>::empty());
                        assert(marks@ + Seq::<u8>::empty() =~= marks@);
                    }
                    break ;
                },
            }
        }
        if pictures.len() != marks.len() {
            return Err(
                DatasetError::MismatchedCounts { images: pictures.len(), labels: marks.len() },
            );
        }
        Ok(MNIST { images: pictures, labels: marks, categories: None })
    }

    /// The dataset with each target as the vector of length `categories` that is one at
    /// the label and zero elsewhere.
    pub fn to_one_hot(self, categories: usize) -> (r: MNIST)
        requires
            self@.wf(),
            forall|i: int| 0 <= i < self@.labels.len() ==> (#[trigger] self@.labels[i]) < categories,
        ensures
            r@.wf(),
            r@.images == self@.images,
            r@.labels == self@.labels,
            r@.categories == Some(categories),
    {
        MNIST { images: self.images, labels: self.labels, categories: Some(categories) }
    }

    /// Whether every label is below `categories`, so that the targets can be turned into
    /// one-hot vectors of that length.
    pub fn labels_below(&self, categories: usize) -> (r: bool)
        ensures
            r <==> forall|i: int|
                0 <= i < self@.labels.len() ==> (#[trigger] self@.labels[i]) < categories,
    {
        let n: usize = self.labels.len();
        let mut i: usize = 0;
        while i < n
            invariant
                n == self.labels.len(),
                i <= n,
                forall|j: int| 0 <= j < i ==> (#[trigger] self.labels[j]) < categories,
            decreases n - i,
        {
            if self.labels[i] as usize >= categories {
                assert(!(self@.labels[i as int] < categories));
                return false;
            }
            i += 1;
        }
        true
    }

    /// The shape of a target: that of a scalar, or of a vector of the number of
    /// categories.
    pub fn target_shape(&self) -> (r: Vec<usize>)
        ensures
            r@ == match self@.categories {
                None => Seq::<usize>::empty(),
                Some(n) => seq![n],
            },
    {
        let mut shape: Vec<usize> = Vec::new();
        match self.categories {
            None => {},
            Some(n) => {
                shape.push(n);
            },
        }
        assert(self.categories matches Some(n) ==> shape@ =~= seq![n]);
        shape
    }

    /// The number of items.
    pub fn len(&self) -> (r: usize)
        ensures
            r == self@.images.len(),
    {
        self.images.len()
    }

    /// The image of item `i`.
    pub fn input(&self, i: usize) -> (r: &Image)
        requires
            i < self@.images.len(),
        ensures
            r@ == self@.images[i as int],
    {
        &self.images[i]
    }

    /// The label of item `i`.
    pub fn label(&self, i: usize) -> (r: u8)
        requires
            self@.wf(),
            i < self@.images.len(),
        ensures
            r == self@.labels[i as int],
    {
        self.labels[i]
    }

    /// The target of item `i`.
    pub fn target(&self, i: usize) -> (r: Tensor)
        requires
            self@.wf(),
            i < self@.images.len(),
        ensures
            r@ == self@.target(i as int),
            r@.wf(),
    {
        let label: u8 = self.labels[i];
        match self.categories {
            None => Tensor::scalar(scalar_count(label as usize)),
            Some(n) => {
                let mut shape: Vec<usize> = Vec::new();
                shape.push(n);
                let mut data: Vec<u32> = Vec::new();
                let mut j: usize = 0;
                while j < n
                    invariant
                        j <= n,
                        data.len() == j,
                        forall|p: int|
                            0 <= p < j ==> data[p] == if p == label {
                                ONE
                            } else {
                                ZERO
                            },
                    decreases n - j,
                {
                    if j == label as usize {
                        data.push(ONE);
                    } else {
                        data.push(ZERO);
                    }
                    j += 1;
                }
                proof {
                    assert(shape@ =~= seq![n]);
                    assert(crate::shape::size(seq![n]) == n) by {
                        assert(seq![n].drop_last() =~= Seq::<usize>::empty());
                        assert(crate::shape::size(Seq::<usize>::empty()) == 1);
                        assert(1 * (n as nat) == n);
                    }
                    assert(data@ =~= self@.target(i as int).data);
                }
                match Tensor::new(shape, data) {
                    Some(t) => t,
                    None => unreached(),
                }
            },
        }
    }
}

} // verus!
