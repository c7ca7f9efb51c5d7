use vcd30_player::assets::chm::{ChmError, ChunkPayload, CompHtmlDoc, ImageElement};
use vcd30_player::assets::cls::{AutoRunConfig, ClsError, JAVA_CLASS_MAGIC};
use vcd30_player::assets::ybm::{RgbColor, YbmError, YbmImage, PIXELS_OFFSET};

const COMPHTML_MAGIC: &[u8; 10] = b"<COMPHTML>";
const COMPHTML_END_TAG: &[u8; 11] = b"</COMPHTML>";
const YBM_MAGIC: &[u8; 8] = b"<YUVBMP>";

/// BT.601 conversion of a raw palette entry, as the player does it.
fn yuv(_reserved: u8, cr: u8, cb: u8, y: u8) -> RgbColor {
    let clamp = |v: f64| -> u8 {
        if v <= 0.0 {
            0
        } else if v >= 255.0 {
            255
        } else {
            v.round() as u8
        }
    };
    let y = (y ^ 0x80) as f64;
    let cr = ((cr ^ 0x80) as i32 - 128) as f64;
    let cb = ((cb ^ 0x80) as i32 - 128) as f64;
    RgbColor {
        r: clamp(y + 1.402 * cr),
        g: clamp(y - 0.71414 * cr - 0.34414 * cb),
        b: clamp(y + 1.772 * cb),
    }
}

fn grey(_a: u8, _b: u8, _c: u8, y: u8) -> RgbColor {
    RgbColor { r: y, g: y, b: y }
}

#[test]
fn test_parse_img_chunk_with_dirty_buffer() {
    let mut chm_bytes = Vec::new();
    chm_bytes.extend_from_slice(COMPHTML_MAGIC);
    chm_bytes.extend_from_slice(&[0u8; 2]);

    let mut header = vec![0u8; 208];
    header[0x80..0x84].copy_from_slice(&352u32.to_be_bytes());
    header[0x84..0x88].copy_from_slice(&288u32.to_be_bytes());
    header[0x88..0x8c].copy_from_slice(&0u32.to_be_bytes());
    header[0x8c..0x90].copy_from_slice(&1u32.to_be_bytes());
    chm_bytes.extend_from_slice(&header);

    chm_bytes.extend_from_slice(&[0, 128, 128, 0]);

    let mut img_data = vec![0u8; 112];
    img_data[0x08..0x0c].copy_from_slice(&352u32.to_be_bytes());
    img_data[0x0c..0x10].copy_from_slice(&288u32.to_be_bytes());
    let dirty = b"MAGE \"HAND.YBM\",163,52,0\r\n40 END";
    img_data[0x20..0x20 + dirty.len()].copy_from_slice(dirty);
    img_data[0x60..0x64].copy_from_slice(&8u32.to_be_bytes());
    img_data[0x64..0x6c].copy_from_slice(b"2_5A.YBM");

    chm_bytes.extend_from_slice(&3u32.to_be_bytes());
    chm_bytes.extend_from_slice(&(img_data.len() as u32).to_be_bytes());
    chm_bytes.extend_from_slice(&0u32.to_be_bytes());
    chm_bytes.extend_from_slice(&img_data);

    chm_bytes.extend_from_slice(COMPHTML_END_TAG);

    let doc = CompHtmlDoc::parse(&chm_bytes, yuv).expect("Failed to parse mock CHM");
    assert_eq!(
        doc.get_background_image(),
        Some("2_5A.YBM"),
        "Must parse true filename from 0x60 rather than dirty script memory"
    );
}

#[test]
fn test_class_magic_validation() {
    let bad = vec![0u8; 20];
    assert_eq!(AutoRunConfig::parse(&bad), Err(ClsError::InvalidMagic(0)));
}

fn class_with(entries: &[&str]) -> Vec<u8> {
    let mut class_bytes = Vec::new();
    class_bytes.extend_from_slice(&JAVA_CLASS_MAGIC.to_be_bytes());
    class_bytes.extend_from_slice(&3u16.to_be_bytes());
    class_bytes.extend_from_slice(&45u16.to_be_bytes());
    let cp_count = (entries.len() + 1) as u16;
    class_bytes.extend_from_slice(&cp_count.to_be_bytes());
    for entry in entries {
        class_bytes.push(1);
        class_bytes.extend_from_slice(&(entry.len() as u16).to_be_bytes());
        class_bytes.extend_from_slice(entry.as_bytes());
    }
    class_bytes
}

#[test]
fn test_cls_no_opening_video_when_not_called() {
    let class_bytes = class_with(&[
        "COVER.YBM",
        "HOMEPAGE.CHM",
        "UserName LeiShi",
        "TitleName LeiShi",
        "^%$@# ]`d_a`b5#:5:9<99B*+",
    ]);
    let cfg = AutoRunConfig::parse(&class_bytes).expect("Failed to parse mock CLS");
    assert_eq!(cfg.cover_ybm, "COVER.YBM");
    assert_eq!(cfg.homepage_chm, "HOMEPAGE.CHM");
    assert_eq!(cfg.opening_mpeg, None, "Must not assume opening video when absent in CLS");
}

#[test]
fn test_cls_with_play_mpeg_and_dat() {
    let class_bytes = class_with(&["COVER.YBM", "HOMEPAGE.CHM", "PlayMpeg", "MUSIC01.DAT"]);
    let cfg = AutoRunConfig::parse(&class_bytes).expect("Failed to parse mock CLS");
    assert_eq!(cfg.opening_mpeg, Some("MUSIC01.DAT".to_string()));
}

#[test]
fn cls_error_messages() {
    assert_eq!(
        ClsError::InvalidMagic(0x1234ABCD).message(),
        "Invalid class magic: 0x1234ABCD (expected 0xCAFEBABE)"
    );
    assert_eq!(ClsError::InvalidMagic(0).message(), "Invalid class magic: 0x00000000 (expected 0xCAFEBABE)");
    assert_eq!(ClsError::DataTooSmall(3).message(), "Data too small for Java class: 3 bytes");
    assert_eq!(
        ClsError::UnsupportedVersion { major: 52, minor: 0 }.message(),
        "Unsupported Java class version: 52.0"
    );
}

#[test]
fn cls_short_data_is_too_small() {
    assert_eq!(AutoRunConfig::parse(&[0xCA, 0xFE]), Err(ClsError::DataTooSmall(2)));
}

#[test]
fn test_ybm_header_validation() {
    let bad_data = b"NOT_YBM_FILE_DATA";
    assert_eq!(YbmImage::decode(bad_data, yuv), Err(YbmError::DataTooSmall(bad_data.len())));

    let mut fake = vec![0u8; PIXELS_OFFSET + 10];
    assert_eq!(YbmImage::decode(&fake, yuv), Err(YbmError::InvalidMagic));

    fake[..8].copy_from_slice(YBM_MAGIC);
    assert_eq!(YbmImage::decode(&fake, yuv), Err(YbmError::InvalidBmpHeader));
}

fn ybm_2x1(pixels: [u8; 2]) -> Vec<u8> {
    let mut d = vec![0u8; PIXELS_OFFSET];
    d[..8].copy_from_slice(YBM_MAGIC);
    d[0x20..0x24].copy_from_slice(&40u32.to_be_bytes());
    d[0x24..0x28].copy_from_slice(&2u32.to_be_bytes());
    d[0x28..0x2c].copy_from_slice(&1u32.to_be_bytes());
    // palette entry 1: luma 200
    d[0x48 + 4 + 3] = 200;
    d.extend_from_slice(&pixels);
    d
}

#[test]
fn ybm_decode_and_expand() {
    let img = YbmImage::decode(&ybm_2x1([1, 0]), grey).expect("valid image");
    assert_eq!((img.width, img.height), (2, 1));
    assert_eq!(img.pixels, vec![1, 0]);
    assert_eq!(img.to_rgba8(), vec![200, 200, 200, 255, 0, 0, 0, 255]);
    assert_eq!(img.to_rgb8(), vec![200, 200, 200, 0, 0, 0]);
}

#[test]
fn ybm_dimension_and_pixel_errors() {
    let mut d = ybm_2x1([1, 0]);
    d[0x24..0x28].copy_from_slice(&0u32.to_be_bytes());
    assert_eq!(YbmImage::decode(&d, grey), Err(YbmError::InvalidDimensions(0, 1)));
    let mut d = ybm_2x1([1, 0]);
    d.pop();
    assert_eq!(
        YbmImage::decode(&d, grey),
        Err(YbmError::IncompletePixelData { expected: 2, actual: 1 })
    );
    assert_eq!(
        YbmError::IncompletePixelData { expected: 2, actual: 1 }.message(),
        "Incomplete pixel data: expected 2 bytes, found 1"
    );
    assert_eq!(YbmError::InvalidDimensions(0, 1).message(), "Invalid image dimensions: 0x1");
}

#[test]
fn chm_error_cases() {
    assert!(matches!(CompHtmlDoc::parse(b"<COMP", grey), Err(ChmError::DataTooSmall(5))));
    assert_eq!(ChmError::DataTooSmall(5).message(), "Data too small for CHM: 5 bytes");
    assert_eq!(ChmError::InvalidDimensions(3, 4).message(), "Invalid CHM dimensions: 3x4");
    let junk = vec![0u8; 300];
    assert!(matches!(CompHtmlDoc::parse(&junk, grey), Err(ChmError::InvalidMagic)));
}

#[test]
fn ybm_blit_skips_transparent_and_clips() {
    let img = YbmImage::decode(&ybm_2x1([1, 0]), grey).expect("valid image");
    // 3x2 canvas, image placed at (2, 1): only its first pixel is inside
    let mut canvas = vec![9u8; 3 * 2 * 4];
    img.blit_to_rgba_canvas(&mut canvas, 3, 2, 2, 1, None);
    let at = |x: usize, y: usize| canvas[(y * 3 + x) * 4..(y * 3 + x) * 4 + 4].to_vec();
    assert_eq!(at(2, 1), vec![200, 200, 200, 255]);
    assert_eq!(at(0, 0), vec![9, 9, 9, 9]);

    // colour 1 transparent: nothing is drawn
    let mut canvas2 = vec![9u8; 3 * 2 * 4];
    img.blit_to_rgba_canvas(&mut canvas2, 3, 2, 2, 1, Some(1));
    assert_eq!(canvas2, vec![9u8; 3 * 2 * 4]);

    // negative offset: the second pixel lands at (0, 0)
    let mut canvas3 = vec![9u8; 3 * 2 * 4];
    img.blit_to_rgba_canvas(&mut canvas3, 3, 2, -1, 0, None);
    assert_eq!(&canvas3[0..4], &[0, 0, 0, 255]);
    assert_eq!(&canvas3[4..8], &[9, 9, 9, 9]);
}

fn doc_with(chunks: Vec<ChunkPayload>) -> CompHtmlDoc {
    CompHtmlDoc {
        title: String::new(),
        author: String::new(),
        width: 352,
        height: 288,
        bg_color_idx: 0,
        palette_count: 0,
        palette: Vec::new(),
        chunks,
    }
}

#[test]
fn overlay_is_variable_text_without_background() {
    let text = ChunkPayload::VariableText { x: 10, y: 20, var_name: "A".to_string() };
    let image = ChunkPayload::Image(ImageElement {
        x: 0,
        y: 0,
        width: 352,
        height: 288,
        usemap: None,
        filename: "BG.YBM".to_string(),
    });
    assert!(doc_with(vec![ChunkPayload::Title("t".to_string()), text.clone()]).is_overlay());
    assert!(!doc_with(vec![image.clone(), text.clone()]).is_overlay());
    assert!(!doc_with(vec![ChunkPayload::Title("t".to_string())]).is_overlay());
    assert!(!doc_with(vec![image]).is_overlay());
}
