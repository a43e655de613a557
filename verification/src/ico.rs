//! The file format of Windows icons, with uncompressed images of 32 bits a pixel.
use vstd::prelude::*;

verus! {

// ---------------------------------------------------------------------------
// Numbers, the low byte first
// ---------------------------------------------------------------------------
/// A number in two bytes.
pub open spec fn le16(n: int) -> Seq<u8> {
    seq![(n % 256) as u8, (n / 256 % 256) as u8]
}

/// A number in four bytes.
pub open spec fn le32(n: int) -> Seq<u8> {
    seq![
        (n % 256) as u8,
        (n / 256 % 256) as u8,
        (n / 65536 % 256) as u8,
        (n / 16777216 % 256) as u8,
    ]
}

fn push_le16(out: &mut Vec<u8>, n: u16)
    ensures
        final(out)@ == old(out)@ + le16(n as int),
{
    out.push((n % 256) as u8);
    out.push((n / 256 % 256) as u8);
    assert(out@ =~= old(out)@ + le16(n as int));
}

fn push_le32(out: &mut Vec<u8>, n: u32)
    ensures
        final(out)@ == old(out)@ + le32(n as int),
{
    out.push((n % 256) as u8);
    out.push((n / 256 % 256) as u8);
    out.push((n / 65536 % 256) as u8);
    out.push((n / 16777216 % 256) as u8);
    assert(out@ =~= old(out)@ + le32(n as int));
}

/// The number that four bytes stand for.
pub open spec fn read_le32(s: Seq<u8>) -> int {
    s[0] + s[1] * 256 + s[2] * 65536 + s[3] * 16777216
}

/// A number in four bytes is read back.
pub proof fn lemma_le32_round_trip(n: int)
    requires
        0 <= n <= u32::MAX,
    ensures
        read_le32(le32(n)) == n,
{
}

fn push_all(out: &mut Vec<u8>, bytes: &Vec<u8>)
    ensures
        final(out)@ == old(out)@ + bytes@,
{
    let mut i: usize = 0;
    assert(old(out)@ + bytes@.take(0) =~= old(out)@);
    while i < bytes.len()
        invariant
            i <= bytes@.len(),
            out@ == old(out)@ + bytes@.take(i as int),
        decreases bytes@.len() - i,
    {
        out.push(bytes[i]);
        i = i + 1;
        assert(bytes@.take(i as int) =~= bytes@.take(i - 1).push(bytes@[i - 1]));
        assert(out@ =~= old(out)@ + bytes@.take(i as int));
    }
    assert(bytes@.take(i as int) =~= bytes@);
}

fn push_zeros(out: &mut Vec<u8>, n: usize)
    ensures
        final(out)@ == old(out)@ + zeros(n as nat),
{
    let mut i: usize = 0;
    assert(old(out)@ + zeros(0) =~= old(out)@);
    while i < n
        invariant
            i <= n,
            out@ == old(out)@ + zeros(i as nat),
        decreases n - i,
    {
        out.push(0);
        i = i + 1;
        assert(out@ =~= old(out)@ + zeros(i as nat));
    }
}

/// A number of zero bytes.
pub open spec fn zeros(n: nat) -> Seq<u8> {
    Seq::new(n, |i: int| 0u8)
}

// ---------------------------------------------------------------------------
// One image
// ---------------------------------------------------------------------------
/// The first `n` pixels of row `y` of a square image, blue first.
pub open spec fn bgra_row(rgba: Seq<u8>, size: int, y: int, n: nat) -> Seq<u8>
    decreases n,
{
    if n == 0 {
        Seq::empty()
    } else {
        let at = (y * size + (n - 1)) * 4;
        bgra_row(rgba, size, y, (n - 1) as nat) + seq![
            rgba[at + 2],
            rgba[at + 1],
            rgba[at],
            rgba[at + 3],
        ]
    }
}

/// The first `rows` rows of a square image, blue first, the last row first.
pub open spec fn bottom_up(rgba: Seq<u8>, size: int, rows: nat) -> Seq<u8>
    decreases rows,
{
    if rows == 0 {
        Seq::empty()
    } else {
        bgra_row(rgba, size, rows - 1, size as nat) + bottom_up(rgba, size, (rows - 1) as nat)
    }
}

/// The number of bytes in the mask behind the pixels: one bit a pixel, each row
/// filled up to four bytes.
pub open spec fn mask_length(size: int) -> int {
    (size + 31) / 32 * 4 * size
}

/// The number of bytes of an image.
pub open spec fn image_length(size: int) -> int {
    40 + size * size * 4 + mask_length(size)
}

/// The header of an image.  It gives twice the height, for pixels and mask.
pub open spec fn image_header(size: int) -> Seq<u8> {
    le32(40) + le32(size) + le32(size * 2) + le16(1) + le16(32) + le32(0) + le32(size * size * 4)
        + le32(0) + le32(0) + le32(0) + le32(0)
}

/// A square image as an icon file holds it: the header, the pixels from the last
/// row up, blue first, and an empty mask.
pub open spec fn bmp_image(size: int, rgba: Seq<u8>) -> Seq<u8> {
    image_header(size) + bottom_up(rgba, size, size as nat) + zeros(mask_length(size) as nat)
}

proof fn lemma_row_length(rgba: Seq<u8>, size: int, y: int, n: nat)
    ensures
        bgra_row(rgba, size, y, n).len() == 4 * n,
    decreases n,
{
    if n > 0 {
        lemma_row_length(rgba, size, y, (n - 1) as nat);
    }
}

proof fn lemma_rows_length(rgba: Seq<u8>, size: int, rows: nat)
    requires
        size >= 0,
    ensures
        bottom_up(rgba, size, rows).len() == rows * size * 4,
    decreases rows,
{
    if rows > 0 {
        lemma_row_length(rgba, size, rows - 1, size as nat);
        lemma_rows_length(rgba, size, (rows - 1) as nat);
        assert(rows * size * 4 == (rows - 1) * size * 4 + 4 * size) by (nonlinear_arith);
    } else {
        assert(0 * size * 4 == 0) by (nonlinear_arith);
    }
}

/// An image has the length that its header and the directory of its file give.
pub proof fn lemma_image_length(size: int, rgba: Seq<u8>)
    requires
        size >= 0,
    ensures
        bmp_image(size, rgba).len() == image_length(size),
{
    lemma_rows_length(rgba, size, size as nat);
    assert(mask_length(size) >= 0) by (nonlinear_arith)
        requires
            size >= 0,
            mask_length(size) == (size + 31) / 32 * 4 * size,
    ;
}

/// The image of a square picture as an icon file holds it.
pub fn encode_bmp_icon_image(size: usize, rgba: &Vec<u8>) -> (data: Vec<u8>)
    requires
        rgba@.len() == size * size * 4,
        image_length(size as int) <= i32::MAX,
    ensures
        data@ == bmp_image(size as int, rgba@),
        data@.len() == image_length(size as int),
{
    proof {
        assert(size * size >= size && mask_length(size as int) >= 0) by (nonlinear_arith)
            requires
                size >= 0,
                mask_length(size as int) == (size + 31) / 32 * 4 * size,
        ;
        lemma_image_length(size as int, rgba@);
    }
    let mut data: Vec<u8> = Vec::new();
    push_le32(&mut data, 40);
    push_le32(&mut data, size as u32);
    push_le32(&mut data, (size * 2) as u32);
    push_le16(&mut data, 1);
    push_le16(&mut data, 32);
    push_le32(&mut data, 0);
    push_le32(&mut data, (size * size * 4) as u32);
    push_le32(&mut data, 0);
    push_le32(&mut data, 0);
    push_le32(&mut data, 0);
    push_le32(&mut data, 0);
    assert(data@ =~= image_header(size as int));
    let mut rows: usize = size;
    while rows > 0
        invariant
            rows <= size,
            rgba@.len() == size * size * 4,
            data@ + bottom_up(rgba@, size as int, rows as nat) == image_header(size as int)
                + bottom_up(rgba@, size as int, size as nat),
        decreases rows,
    {
        let y: usize = rows - 1;
        let ghost before = data@;
        let mut n: usize = 0;
        assert(before + bgra_row(rgba@, size as int, y as int, 0) =~= before);
        while n < size
            invariant
                n <= size,
                y < size,
                rgba@.len() == size * size * 4,
                data@ == before + bgra_row(rgba@, size as int, y as int, n as nat),
            decreases size - n,
        {
            proof {
                assert(rgba.len() <= usize::MAX);
                assert(0 <= y * size && 0 <= y * size + n && (y * size + n) * 4 + 3 < size * size
                    * 4) by (nonlinear_arith)
                    requires
                        y < size,
                        n < size,
                ;
            }
            let at: usize = (y * size + n) * 4;
            data.push(rgba[at + 2]);
            data.push(rgba[at + 1]);
            data.push(rgba[at]);
            data.push(rgba[at + 3]);
            n = n + 1;
            assert(data@ =~= before + bgra_row(rgba@, size as int, y as int, n as nat));
        }
        assert(data@ + bottom_up(rgba@, size as int, y as nat) =~= before + bottom_up(
            rgba@,
            size as int,
            rows as nat,
        ));
        rows = y;
    }
    assert(data@ =~= image_header(size as int) + bottom_up(rgba@, size as int, size as nat));
    let mask: usize = (size + 31) / 32 * 4 * size;
    push_zeros(&mut data, mask);
    data
}

// ---------------------------------------------------------------------------
// The file
// ---------------------------------------------------------------------------
/// An image of an icon file, with the width and height of its picture.
pub struct IcoImage {
    pub size: usize,
    pub data: Vec<u8>,
}

/// The mathematical content of an [`IcoImage`].
pub struct IcoImageModel {
    pub size: int,
    pub data: Seq<u8>,
}

impl View for IcoImage {
    type V = IcoImageModel;

    open spec fn view(&self) -> IcoImageModel {
        IcoImageModel { size: self.size as int, data: self.data@ }
    }
}

/// The images of a list.
pub open spec fn image_models(images: Seq<IcoImage>) -> Seq<IcoImageModel> {
    Seq::new(images.len(), |i: int| images[i]@)
}

/// The entry of an image in the directory; a size from 256 on is given as zero.
pub open spec fn directory_entry(size: int, length: int, offset: int) -> Seq<u8> {
    let side = if size >= 256 {
        0u8
    } else {
        size as u8
    };
    seq![side, side, 0u8, 0u8] + le16(1) + le16(32) + le32(length) + le32(offset)
}

/// The data of the first `k` images, one behind the other.
pub open spec fn contents(images: Seq<IcoImageModel>, k: nat) -> Seq<u8>
    decreases k,
{
    if k == 0 {
        Seq::empty()
    } else {
        contents(images, (k - 1) as nat) + images[k - 1].data
    }
}

/// Where the data of image number `k` begin in the file.
pub open spec fn image_offset(images: Seq<IcoImageModel>, k: nat) -> int {
    (6 + 16 * images.len() + contents(images, k).len()) as int
}

/// The entries of the first `k` images.
pub open spec fn directory(images: Seq<IcoImageModel>, k: nat) -> Seq<u8>
    decreases k,
{
    if k == 0 {
        Seq::empty()
    } else {
        directory(images, (k - 1) as nat) + directory_entry(
            images[k - 1].size,
            images[k - 1].data.len() as int,
            image_offset(images, (k - 1) as nat),
        )
    }
}

/// An icon file: a header, the directory and the images.
pub open spec fn ico_file(images: Seq<IcoImageModel>) -> Seq<u8> {
    le16(0) + le16(1) + le16(images.len() as int) + directory(images, images.len()) + contents(
        images,
        images.len(),
    )
}

proof fn lemma_directory_length(images: Seq<IcoImageModel>, k: nat)
    ensures
        directory(images, k).len() == 16 * k,
    decreases k,
{
    if k > 0 {
        lemma_directory_length(images, (k - 1) as nat);
    }
}

proof fn lemma_contents_grow(images: Seq<IcoImageModel>, j: nat, k: nat)
    requires
        j <= k,
    ensures
        contents(images, j).len() <= contents(images, k).len(),
        contents(images, j) == contents(images, k).take(contents(images, j).len() as int),
    decreases k,
{
    if j < k {
        lemma_contents_grow(images, j, (k - 1) as nat);
        assert(contents(images, k).take(contents(images, j).len() as int) =~= contents(
            images,
            (k - 1) as nat,
        ).take(contents(images, j).len() as int));
    } else {
        assert(contents(images, k).take(contents(images, k).len() as int) =~= contents(images, k));
    }
}

/// The file with the given images.
pub fn encode_ico_images(images: &Vec<IcoImage>) -> (ico: Vec<u8>)
    requires
        images@.len() <= u16::MAX,
        image_offset(image_models(images@), images@.len()) <= u32::MAX,
    ensures
        ico@ == ico_file(image_models(images@)),
{
    let ghost models = image_models(images@);
    let n: usize = images.len();
    let mut ico: Vec<u8> = Vec::new();
    push_le16(&mut ico, 0);
    push_le16(&mut ico, 1);
    push_le16(&mut ico, n as u16);
    let ghost header = le16(0) + le16(1) + le16(n as int);
    assert(ico@ =~= header);
    let mut offset: u32 = 6 + 16 * n as u32;
    let mut k: usize = 0;
    assert(header + directory(models, 0) =~= header);
    while k < n
        invariant
            k <= n,
            n == images@.len(),
            models == image_models(images@),
            image_offset(models, n as nat) <= u32::MAX,
            offset == image_offset(models, k as nat),
            ico@ == header + directory(models, k as nat),
        decreases n - k,
    {
        proof {
            lemma_contents_grow(models, (k + 1) as nat, n as nat);
        }
        let size: usize = images[k].size;
        let length: u32 = images[k].data.len() as u32;
        let side: u8 = if size >= 256 {
            0
        } else {
            size as u8
        };
        let ghost before = ico@;
        ico.push(side);
        ico.push(side);
        ico.push(0);
        ico.push(0);
        push_le16(&mut ico, 1);
        push_le16(&mut ico, 32);
        push_le32(&mut ico, length);
        push_le32(&mut ico, offset);
        assert(ico@ =~= before + directory_entry(size as int, length as int, offset as int));
        offset = offset + length;
        k = k + 1;
        assert(ico@ =~= header + directory(models, k as nat));
    }
    let ghost head = ico@;
    assert(head + contents(models, 0) =~= head);
    let mut k: usize = 0;
    while k < n
        invariant
            k <= n,
            n == images@.len(),
            models == image_models(images@),
            ico@ == head + contents(models, k as nat),
        decreases n - k,
    {
        push_all(&mut ico, &images[k].data);
        k = k + 1;
        assert(ico@ =~= head + contents(models, k as nat));
    }
    assert(ico@ =~= ico_file(models));
    ico
}

/// The directory gives for every image where its data are found.
pub proof fn lemma_directory_finds_images(images: Seq<IcoImageModel>, k: int)
    requires
        0 <= k < images.len(),
    ensures
        ({
            let at = image_offset(images, k as nat);
            let length = images[k].data.len() as int;
            &&& 0 <= at <= at + length <= ico_file(images).len()
            &&& ico_file(images).subrange(at, at + length) == images[k].data
            &&& ico_file(images).subrange(6 + 16 * k, 6 + 16 * (k + 1)) == directory_entry(
                images[k].size,
                length,
                at,
            )
        }),
{
    let n = images.len();
    let file = ico_file(images);
    let at = image_offset(images, k as nat);
    let length = images[k].data.len() as int;
    lemma_directory_length(images, n);
    lemma_contents_grow(images, (k + 1) as nat, n);
    let before = contents(images, k as nat);
    let through = contents(images, (k + 1) as nat);
    assert(through == before + images[k].data);
    let start = 6 + 16 * n;
    assert forall|i: int| 0 <= i < length implies file.subrange(at, at + length)[i]
        == images[k].data[i] by {
        assert(file[at + i] == contents(images, n)[before.len() + i]);
        assert(contents(images, n).take(through.len() as int)[before.len() + i]
            == through[before.len() + i]);
    }
    assert(file.subrange(at, at + length) =~= images[k].data);
    lemma_directory_prefix(images, (k + 1) as nat, n);
    lemma_directory_length(images, k as nat);
    lemma_directory_length(images, (k + 1) as nat);
    let entry = directory_entry(images[k].size, length, at);
    assert forall|i: int| 0 <= i < 16 implies file.subrange(6 + 16 * k, 6 + 16 * (k + 1))[i]
        == entry[i] by {
        assert(file[6 + 16 * k + i] == directory(images, n)[16 * k + i]);
        assert(directory(images, n).take(16 * (k + 1))[16 * k + i] == directory(
            images,
            (k + 1) as nat,
        )[16 * k + i]);
    }
    assert(file.subrange(6 + 16 * k, 6 + 16 * (k + 1)) =~= entry);
}

proof fn lemma_directory_prefix(images: Seq<IcoImageModel>, j: nat, k: nat)
    requires
        j <= k,
    ensures
        directory(images, j) == directory(images, k).take((16 * j) as int),
    decreases k,
{
    lemma_directory_length(images, j);
    lemma_directory_length(images, k);
    if j < k {
        lemma_directory_length(images, (k - 1) as nat);
        lemma_directory_prefix(images, j, (k - 1) as nat);
        assert(directory(images, k).take((16 * j) as int) =~= directory(
            images,
            (k - 1) as nat,
        ).take((16 * j) as int));
    } else {
        assert(directory(images, k).take((16 * j) as int) =~= directory(images, k));
    }
}

/// A number in two bytes is that of the first and 256 times the second.
pub proof fn lemma_le16_round_trip(n: int)
    requires
        0 <= n <= u16::MAX,
    ensures
        le16(n).len() == 2,
        le16(n)[0] + 256 * le16(n)[1] == n,
        le32(n)[0] == le16(n)[0] && le32(n)[1] == le16(n)[1],
{
}

/// The header of an image tells its own length, the width, twice the height, one
/// plane of 32 bits a pixel, no compression and the length of the pixels; the
/// rest of it is zero.
pub proof fn lemma_image_header(size: int, rgba: Seq<u8>, i: int)
    requires
        0 <= size,
        size * size * 4 <= i32::MAX,
    ensures
        ({
            let image = bmp_image(size, rgba);
            &&& read_le32(image) == 40
            &&& read_le32(image.skip(4)) == size
            &&& read_le32(image.skip(8)) == size + size
            &&& image[12] == 1 && image[13] == 0
            &&& image[14] == 32 && image[15] == 0
            &&& read_le32(image.skip(16)) == 0
            &&& read_le32(image.skip(20)) == 4 * (size * size)
            &&& 24 <= i < 40 ==> image[i] == 0
        }),
{
    assert(size <= size * size) by (nonlinear_arith)
        requires
            0 <= size,
    ;
    let image = bmp_image(size, rgba);
    let header = image_header(size);
    assert(header.len() == 40);
    assert forall|k: int| 0 <= k < 40 implies image[k] == header[k] by {}
    lemma_le32_round_trip(40);
    lemma_le32_round_trip(size);
    lemma_le32_round_trip(size * 2);
    lemma_le32_round_trip(size * size * 4);
}

proof fn lemma_row_pixel(rgba: Seq<u8>, size: int, y: int, n: nat, x: int)
    requires
        0 <= x < n,
    ensures
        bgra_row(rgba, size, y, n).len() == 4 * n,
        bgra_row(rgba, size, y, n)[4 * x] == rgba[(y * size + x) * 4 + 2],
        bgra_row(rgba, size, y, n)[4 * x + 1] == rgba[(y * size + x) * 4 + 1],
        bgra_row(rgba, size, y, n)[4 * x + 2] == rgba[(y * size + x) * 4],
        bgra_row(rgba, size, y, n)[4 * x + 3] == rgba[(y * size + x) * 4 + 3],
    decreases n,
{
    lemma_row_length(rgba, size, y, n);
    lemma_row_length(rgba, size, y, (n - 1) as nat);
    if x < n - 1 {
        lemma_row_pixel(rgba, size, y, (n - 1) as nat, x);
    }
}

proof fn lemma_rows_pixel(rgba: Seq<u8>, size: int, rows: nat, x: int, y: int)
    requires
        0 <= x < size,
        0 <= y < rows,
    ensures
        ({
            let at = ((rows - 1 - y) * size + x) * 4;
            let from = (y * size + x) * 4;
            &&& 0 <= at && at + 3 < bottom_up(rgba, size, rows).len()
            &&& bottom_up(rgba, size, rows)[at] == rgba[from + 2]
            &&& bottom_up(rgba, size, rows)[at + 1] == rgba[from + 1]
            &&& bottom_up(rgba, size, rows)[at + 2] == rgba[from]
            &&& bottom_up(rgba, size, rows)[at + 3] == rgba[from + 3]
        }),
    decreases rows,
{
    lemma_rows_length(rgba, size, rows);
    let row = bgra_row(rgba, size, rows - 1, size as nat);
    lemma_row_length(rgba, size, rows - 1, size as nat);
    let at = ((rows - 1 - y) * size + x) * 4;
    assert(0 <= at && at + 3 < rows * size * 4) by (nonlinear_arith)
        requires
            0 <= x < size,
            0 <= y < rows,
            at == ((rows - 1 - y) * size + x) * 4,
    ;
    if y == rows - 1 {
        assert(at == 4 * x) by (nonlinear_arith)
            requires
                y == rows - 1,
                at == ((rows - 1 - y) * size + x) * 4,
        ;
        lemma_row_pixel(rgba, size, y, size as nat, x);
    } else {
        lemma_rows_pixel(rgba, size, (rows - 1) as nat, x, y);
        let rest = bottom_up(rgba, size, (rows - 1) as nat);
        let before = ((rows - 2 - y) * size + x) * 4;
        assert(at == before + 4 * size) by (nonlinear_arith)
            requires
                at == ((rows - 1 - y) * size + x) * 4,
                before == ((rows - 2 - y) * size + x) * 4,
        ;
        assert(bottom_up(rgba, size, rows) == row + rest);
        assert(before == ((rows - 1) as nat - 1 - y) * size * 4 + 4 * x) by (nonlinear_arith)
            requires
                before == ((rows - 2 - y) * size + x) * 4,
                rows >= 1,
        ;
    }
}

/// Every pixel of a picture stands in its image: the rows from the last one up,
/// each from the left, with blue, green, red and opacity of a pixel in this order.
pub proof fn lemma_image_pixel(size: int, rgba: Seq<u8>, x: int, y: int)
    requires
        0 <= x < size,
        0 <= y < size,
    ensures
        ({
            let image = bmp_image(size, rgba);
            let at = 40 + 4 * ((size - 1 - y) * size + x);
            let from = 4 * (y * size + x);
            &&& 40 <= at && at + 4 <= image.len()
            &&& image[at] == rgba[from + 2]
            &&& image[at + 1] == rgba[from + 1]
            &&& image[at + 2] == rgba[from]
            &&& image[at + 3] == rgba[from + 3]
        }),
{
    lemma_rows_pixel(rgba, size, size as nat, x, y);
    assert(image_header(size).len() == 40);
}

proof fn lemma_mask_rows(size: int)
    requires
        0 <= size,
    ensures
        mask_length(size) == 4 * ((size + 31) / 32 * size),
        mask_length(size) >= 0,
{
    let row = (size + 31) / 32;
    assert(row * 4 * size == 4 * (row * size) && row * 4 * size >= 0) by (nonlinear_arith)
        requires
            row >= 0,
            size >= 0,
    ;
}

/// Behind the pixels only zeros stand, for each row as many whole groups of four
/// bytes as its bits need, and no more.
pub proof fn lemma_image_mask(size: int, rgba: Seq<u8>, row: int, i: int)
    requires
        0 <= size,
        size <= 32 * row < size + 32,
    ensures
        ({
            let image = bmp_image(size, rgba);
            let pixels = 40 + size * size * 4;
            &&& image.len() == pixels + 4 * (row * size)
            &&& pixels <= i < image.len() ==> image[i] == 0
        }),
{
    let (header, pixels, mask) = (
        image_header(size),
        bottom_up(rgba, size, size as nat),
        zeros(mask_length(size) as nat),
    );
    lemma_mask_rows(size);
    assert((size + 31) / 32 == row);
    lemma_rows_length(rgba, size, size as nat);
    assert(header.len() == 40);
    assert(mask.len() == 4 * (row * size));
    let start = (header + pixels).len() as int;
    assert(start == 40 + size * size * 4);
    let image = bmp_image(size, rgba);
    assert(image == header + pixels + mask);
    if start <= i < image.len() {
        assert(image[i] == mask[i - start]);
    }
}

/// The entry of an image tells the width and the height of its picture, zero for
/// 256 pixels or more, then one plane of 32 bits a pixel, the length of its data
/// and where they begin.
pub proof fn lemma_directory_entry(size: int, length: int, offset: int)
    requires
        0 <= size,
        0 <= length <= u32::MAX,
        0 <= offset <= u32::MAX,
    ensures
        ({
            let entry = directory_entry(size, length, offset);
            &&& entry.len() == 16
            &&& entry[0] == entry[1]
            &&& size < 256 ==> entry[0] == size
            &&& size >= 256 ==> entry[0] == 0
            &&& entry[2] == 0 && entry[3] == 0
            &&& entry[4] == 1 && entry[5] == 0
            &&& entry[6] == 32 && entry[7] == 0
            &&& read_le32(entry.skip(8)) == length
            &&& read_le32(entry.skip(12)) == offset
        }),
{
    lemma_le32_round_trip(length);
    lemma_le32_round_trip(offset);
}

/// A file begins with the mark of an icon and the number of its images; the data
/// of the images follow the directory, one behind the other, up to the end.
pub proof fn lemma_file_layout(images: Seq<IcoImageModel>, k: int)
    requires
        images.len() <= u16::MAX,
    ensures
        ({
            let file = ico_file(images);
            &&& file[0] == 0 && file[1] == 0
            &&& file[2] == 1 && file[3] == 0
            &&& file[4] + 256 * file[5] == images.len()
            &&& image_offset(images, 0) == 6 + 16 * images.len()
            &&& 0 <= k < images.len() ==> image_offset(images, (k + 1) as nat) == image_offset(
                images,
                k as nat,
            ) + images[k].data.len()
            &&& file.len() == image_offset(images, images.len())
        }),
{
    lemma_directory_length(images, images.len());
}

} // verus!
