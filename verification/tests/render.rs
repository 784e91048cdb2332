use aeroshoot_editor::media::parity::{compared_regions, region_sum, Region};
use aeroshoot_editor::media::VideoFrame;
use aeroshoot_editor::project::layout::EditLayout;
use aeroshoot_editor::render::blit::{blit_nearest, Sampling};
use aeroshoot_editor::render::pixels::{
    bgra_to_rgba, pad_rows, padded_bytes_per_row, rgba_to_bgra, unpad_rows,
};
use aeroshoot_editor::render::wallpaper::{
    frame_of_decoded, frame_of_image, load_wallpaper_frame, wallpaper_asset, DecodedImage,
};
use aeroshoot_editor::render::{
    clip_code, content_rect, fit_inside, webcam_bubble_size, webcam_origin, webcam_permille,
    ClipMode, Layer, LayerContent, LayerRole, Rect, Scene, SourceFit, WebcamLook,
};
use image::{ExtendedColorType, ImageEncoder};

/// The sides of a frame scaled to touch two sides of a place.
fn fit(frame: &VideoFrame, dest_w: u32, dest_h: u32) -> SourceFit {
    let src = frame.width as f64 / frame.height as f64;
    let dest = dest_w as f64 / dest_h as f64;
    let wider = src > dest;
    let scaled = if wider {
        (dest_w as f64 / src).round() as u32
    } else {
        (dest_h as f64 * src).round() as u32
    };
    SourceFit {
        width: frame.width,
        height: frame.height,
        wider,
        scaled,
    }
}

fn look(frame: &VideoFrame, canvas_w: u32, canvas_h: u32, layout: &EditLayout) -> WebcamLook {
    let share = webcam_permille(&layout.webcam_size) as f32 / 1000.0;
    let target = (canvas_w.min(canvas_h) as f32 * share).round() as u32;
    let side = target.max(8) as f64;
    let scaled = if frame.width >= frame.height {
        (side * frame.height as f64 / frame.width as f64).round() as u32
    } else {
        (side * frame.width as f64 / frame.height as f64).round() as u32
    };
    WebcamLook {
        width: frame.width,
        height: frame.height,
        target,
        scaled,
        custom_x: 0,
        custom_y: 0,
    }
}

fn from_layout(
    width: u32,
    height: u32,
    layout: &EditLayout,
    screen: Option<&VideoFrame>,
    webcam: Option<&VideoFrame>,
) -> Scene {
    let place = content_rect(width, height, layout).unwrap();
    Scene::from_layout_with_wallpaper(
        width,
        height,
        layout,
        screen.map(|f| fit(f, place.width, place.height)),
        webcam.map(|f| look(f, width, height, layout)),
        false,
    )
    .unwrap()
}

/// The part of a picture that a layer shows: left, top, width and height.
fn uv(layer: &Layer, frame: &VideoFrame) -> (f32, f32, f32, f32) {
    let mut r = (0.0, 0.0, 1.0, 1.0);
    if layer.cover {
        let src = frame.width as f32 / frame.height as f32;
        let dest = layer.place.width as f32 / layer.place.height as f32;
        if src > dest {
            let w = dest / src;
            r = ((1.0 - w) * 0.5, 0.0, w, 1.0);
        } else {
            let h = src / dest;
            r = (0.0, (1.0 - h) * 0.5, 1.0, h);
        }
    }
    if layer.mirrored {
        r.0 += r.2;
        r.2 = -r.2;
    }
    r
}

fn rounded(px: f32, py: f32, hw: f32, hh: f32, radius: f32) -> f32 {
    let r = radius.min(hw).min(hh).max(0.0);
    let qx = px.abs() - (hw - r);
    let qy = py.abs() - (hh - r);
    let (ox, oy) = (qx.max(0.0), qy.max(0.0));
    (ox * ox + oy * oy).sqrt() + qx.max(qy).min(0.0) - r
}

fn distance(layer: &Layer, dx: u32, dy: u32) -> f32 {
    let (w, h) = (layer.place.width as f32, layer.place.height as f32);
    let px = ((dx as f32 + 0.5) / w - 0.5) * w;
    let py = ((dy as f32 + 0.5) / h - 0.5) * h;
    let (hw, hh) = (w * 0.5, h * 0.5);
    match layer.clip {
        ClipMode::Circle => (px * px + py * py).sqrt() - hw.min(hh),
        ClipMode::Squircle => {
            let (nx, ny) = (px.abs() / hw, py.abs() / hh);
            let r = hw.min(hh);
            (nx.powi(4) + ny.powi(4)).powf(0.25) * r - r
        }
        ClipMode::RoundedRect | ClipMode::Unclipped => {
            rounded(px, py, hw, hh, layer.radius_px as f32)
        }
    }
}

fn sample(layer: &Layer, frame: &VideoFrame, uv: (f32, f32, f32, f32)) -> Sampling {
    let place = layer.place;
    let at = |from: f32, span: f32, d: u32, of: u32, len: u32| {
        let v = from + span * ((d as f32 + 0.5) / of as f32);
        ((v * len as f32).floor() as i64).clamp(0, len as i64 - 1) as u32
    };
    Sampling {
        rows: (0..place.height)
            .map(|d| at(uv.1, uv.3, d, place.height, frame.height))
            .collect(),
        columns: (0..place.width)
            .map(|d| at(uv.0, uv.2, d, place.width, frame.width))
            .collect(),
        inside: (0..place.width * place.height)
            .map(|i| distance(layer, i % place.width, i / place.width) <= 0.0)
            .collect(),
    }
}

fn composite(scene: &Scene, screen: Option<&VideoFrame>, webcam: Option<&VideoFrame>) -> VideoFrame {
    let [r, g, b] = scene.background;
    let mut out = VideoFrame::solid(scene.width, scene.height, b, g, r, 0).unwrap();
    for layer in &scene.layers {
        let frame = match layer.content {
            LayerContent::Screen => screen.unwrap(),
            LayerContent::Webcam => webcam.unwrap(),
            _ => panic!("a solid background has no layer"),
        };
        let s = sample(layer, frame, uv(layer, frame));
        blit_nearest(&mut out, frame, layer.place, &s).unwrap();
    }
    out
}

fn pixel(frame: &VideoFrame, x: u32, y: u32) -> [u8; 4] {
    let i = (y * frame.stride + x * 4) as usize;
    [
        frame.data[i],
        frame.data[i + 1],
        frame.data[i + 2],
        frame.data[i + 3],
    ]
}

fn layer(scene: &Scene, role: LayerRole) -> &Layer {
    scene.layers.iter().find(|l| l.role == role).unwrap()
}

fn solid_layout() -> EditLayout {
    let mut layout = EditLayout::default();
    layout.background_type = "solid".into();
    layout.color_start = "#00ff00".into();
    layout.padding_px = 4;
    layout.webcam_enabled = false;
    layout.corner_radius_px = 0;
    layout.shadow_blur_px = 0;
    layout
}

fn place(x: u32, y: u32, width: u32, height: u32) -> Rect {
    Rect {
        x,
        y,
        width,
        height,
    }
}

#[test]
fn cpu_composite_crops_screen_uv_and_leaves_webcam() {
    let mut screen = VideoFrame::solid(8, 8, 0, 0, 255, 0).unwrap();
    for y in 0..8u32 {
        for x in 4..8u32 {
            let i = ((y * 8 + x) * 4) as usize;
            screen.data[i] = 255;
            screen.data[i + 1] = 0;
            screen.data[i + 2] = 0;
        }
    }
    let webcam = VideoFrame::solid(8, 8, 0, 255, 0, 0).unwrap();
    let below = Layer::placed(LayerContent::Screen, place(0, 0, 8, 8), LayerRole::Screen);
    let above = Layer::placed(LayerContent::Webcam, place(0, 0, 2, 2), LayerRole::Webcam);
    let mut out = VideoFrame::solid(8, 8, 0, 0, 0, 0).unwrap();
    let s = sample(&below, &screen, (0.5, 0.0, 0.5, 1.0));
    blit_nearest(&mut out, &screen, below.place, &s).unwrap();
    let s = sample(&above, &webcam, uv(&above, &webcam));
    blit_nearest(&mut out, &webcam, above.place, &s).unwrap();
    let center = ((4 * 8 + 4) * 4) as usize;
    assert!(
        out.data[center] > 200 && out.data[center + 2] < 40,
        "screen UV crop should sample the blue half"
    );
    assert!(
        out.data[1] > 200 && out.data[2] < 40,
        "webcam layer must keep identity UV"
    );
}

fn split_frame(width: u32, height: u32, left: [u8; 3], right: [u8; 3]) -> VideoFrame {
    let mut frame = VideoFrame::solid(width, height, left[0], left[1], left[2], 0).unwrap();
    for y in 0..height {
        for x in width / 2..width {
            let i = (y * frame.stride + x * 4) as usize;
            frame.data[i] = right[0];
            frame.data[i + 1] = right[1];
            frame.data[i + 2] = right[2];
        }
    }
    frame
}

#[test]
fn layout_letterboxes_without_stretching() {
    let screen = VideoFrame::solid(16, 8, 0, 0, 255, 0).unwrap();
    let mut landscape = EditLayout::default();
    landscape.background_type = "solid".into();
    landscape.color_start = "#000000".into();
    landscape.webcam_enabled = false;
    landscape.padding_px = 0;
    let wide = from_layout(16, 8, &landscape, Some(&screen), None);
    let screen_layer = layer(&wide, LayerRole::Screen);
    assert_eq!(
        (screen_layer.place.width, screen_layer.place.height),
        (16, 8)
    );

    let mut portrait = landscape.clone();
    portrait.aspect_ratio = "9:16".into();
    let tall = from_layout(8, 16, &portrait, Some(&screen), None);
    let placed = layer(&tall, LayerRole::Screen).place;
    let placed_aspect = placed.width as f32 / placed.height as f32;
    assert!(
        (placed_aspect - 2.0).abs() < 0.05,
        "9:16 canvas must letterbox a 16:9 source, got {placed_aspect}"
    );
    assert_eq!(placed.width, 8);
    assert_eq!(placed.height, 4);
}

#[test]
fn webcam_mirror_flips_only_webcam_pixels() {
    let screen = split_frame(16, 16, [0, 0, 255], [255, 0, 0]);
    let webcam = split_frame(16, 8, [0, 255, 0], [255, 255, 255]);
    let mut layout = EditLayout::default();
    layout.background_type = "solid".into();
    layout.color_start = "#000000".into();
    layout.padding_px = 0;
    layout.webcam_enabled = true;
    layout.webcam_mirror = true;
    layout.webcam_position = "top-left".into();
    layout.webcam_size = "xl".into();
    layout.webcam_border_width = 0;
    let scene = from_layout(16, 16, &layout, Some(&screen), Some(&webcam));
    let cam = layer(&scene, LayerRole::Webcam);
    assert_eq!(uv(cam, &webcam).0, 1.0);
    assert_eq!(uv(cam, &webcam).2, -1.0);
    assert_eq!(uv(layer(&scene, LayerRole::Screen), &screen).2, 1.0);
    let out = composite(&scene, Some(&screen), Some(&webcam));
    let screen_left = out.data[0];
    assert!(
        out.data[2] > 200 && screen_left < 40,
        "screen left must stay red (unmirrored)"
    );
    let left = pixel(&out, cam.place.x, cam.place.y);
    let right = pixel(&out, cam.place.x + cam.place.width - 1, cam.place.y);
    assert!(
        left[0] > 200 && left[1] > 200 && left[2] > 200,
        "mirrored webcam should put the white half on the left"
    );
    assert!(
        right[1] > 200 && right[2] < 40,
        "mirrored webcam should put the green half on the right"
    );
}

#[test]
fn styled_solid_background_differs_from_identity() {
    let screen = VideoFrame::solid(8, 8, 0, 0, 255, 0).unwrap();
    let mut identity = EditLayout::default();
    identity.background_type = "solid".into();
    identity.color_start = "#000000".into();
    identity.padding_px = 2;
    identity.webcam_enabled = false;
    let mut styled = identity.clone();
    styled.color_start = "#ff0000".into();
    let a = composite(
        &from_layout(16, 16, &identity, Some(&screen), None),
        Some(&screen),
        None,
    );
    let b = composite(
        &from_layout(16, 16, &styled, Some(&screen), None),
        Some(&screen),
        None,
    );
    assert_ne!(a.data[0..4], b.data[0..4], "padding should show background");
    assert!(b.data[2] > 200 && a.data[2] < 40);
}

#[test]
fn rounded_rect_reveals_background_in_screen_corners() {
    let screen = VideoFrame::solid(24, 24, 0, 0, 255, 0).unwrap();
    let mut layout = solid_layout();
    layout.corner_radius_px = 12;
    let scene = from_layout(32, 32, &layout, Some(&screen), None);
    let out = composite(&scene, Some(&screen), None);
    let corner = pixel(&out, 4, 4);
    assert!(
        corner[1] > 200 && corner[2] < 40,
        "rounded clip must show green background in the screen AABB corner, got {corner:?}"
    );
    let center = pixel(&out, 16, 16);
    assert!(
        center[2] > 200 && center[1] < 40,
        "screen interior stays red"
    );
}

#[test]
fn circle_and_squircle_clip_webcam_only() {
    let screen = VideoFrame::solid(32, 32, 0, 0, 255, 0).unwrap();
    let webcam = VideoFrame::solid(16, 16, 0, 255, 0, 0).unwrap();
    let mut layout = solid_layout();
    layout.padding_px = 0;
    layout.webcam_enabled = true;
    layout.webcam_shape = "circle".into();
    layout.webcam_position = "top-left".into();
    layout.webcam_size = "xl".into();
    layout.webcam_border_width = 0;
    layout.webcam_mirror = false;
    let scene = from_layout(32, 32, &layout, Some(&screen), Some(&webcam));
    let cam = layer(&scene, LayerRole::Webcam);
    assert_eq!(cam.clip, ClipMode::Circle);
    assert_eq!(cam.place.width, cam.place.height);
    let out = composite(&scene, Some(&screen), Some(&webcam));
    let cam_corner = pixel(&out, cam.place.x, cam.place.y);
    assert!(
        cam_corner[2] > 200 && cam_corner[1] < 40,
        "circle clip must not cover the webcam AABB corner, got {cam_corner:?}"
    );
    let cx = cam.place.x + cam.place.width / 2;
    let cy = cam.place.y + cam.place.height / 2;
    let cam_center = pixel(&out, cx, cy);
    assert!(
        cam_center[1] > 200 && cam_center[2] < 40,
        "circle interior is webcam"
    );
    let screen_far = pixel(&out, 30, 30);
    assert!(screen_far[2] > 200, "screen layer is not circle-clipped");

    layout.webcam_shape = "squircle".into();
    let squircle = from_layout(32, 32, &layout, Some(&screen), Some(&webcam));
    let cam = layer(&squircle, LayerRole::Webcam);
    assert_eq!(cam.clip, ClipMode::Squircle);
    let out = composite(&squircle, Some(&screen), Some(&webcam));
    let cam_corner = pixel(&out, cam.place.x, cam.place.y);
    assert!(
        cam_corner[2] > 200 && cam_corner[1] < 40,
        "squircle clip must drop the webcam AABB corner"
    );
}

#[test]
fn circle_webcam_cover_crops_nonsquare_source() {
    let screen = VideoFrame::solid(32, 32, 0, 0, 255, 0).unwrap();
    let webcam = VideoFrame::solid(32, 16, 0, 255, 0, 0).unwrap();
    let mut layout = solid_layout();
    layout.padding_px = 0;
    layout.webcam_enabled = true;
    layout.webcam_shape = "circle".into();
    layout.webcam_position = "top-left".into();
    layout.webcam_size = "xl".into();
    layout.webcam_border_width = 0;
    layout.webcam_mirror = false;
    let scene = from_layout(32, 32, &layout, Some(&screen), Some(&webcam));
    let cam = layer(&scene, LayerRole::Webcam);
    assert_eq!(cam.place.width, cam.place.height);
    assert!(cam.cover);
    let (x, y, w, h) = uv(cam, &webcam);
    assert!(
        (w - 0.5).abs() < 0.05 && (x - 0.25).abs() < 0.05 && h == 1.0,
        "16:9 source in a square bubble must cover-crop, got uv=({x}, {y}, {w}, {h})"
    );
}

#[test]
fn wallpapers_are_decoded_and_urls_refused() {
    let mut pixels = Vec::new();
    for _ in 0..64 {
        pixels.extend([255u8, 0, 254, 255]);
    }
    let mut bytes = Vec::new();
    image::codecs::png::PngEncoder::new(&mut bytes)
        .write_image(&pixels, 8, 8, ExtendedColorType::Rgba8)
        .unwrap();
    let frame = load_wallpaper_frame(&bytes).unwrap();
    assert_eq!((frame.width, frame.height), (8, 8));
    assert_eq!(pixel(&frame, 0, 0), [254, 0, 255, 255]);
    assert_eq!(pixel(&frame, 7, 7), [254, 0, 255, 255]);
    assert!(load_wallpaper_frame(&vec![1, 2, 3])
        .unwrap_err()
        .starts_with("Wallpaper decode failed: "));
    assert_eq!(
        load_wallpaper_frame(&Vec::new()).unwrap_err(),
        "Wallpaper exceeds size limit"
    );

    let mut layout = solid_layout();
    assert_eq!(wallpaper_asset(&layout), Ok(None));
    layout.background_type = "wallpaper".into();
    assert!(wallpaper_asset(&layout).is_err());
    layout.wallpaper_asset = Some("assets/wallpaper-test.png".into());
    assert_eq!(
        wallpaper_asset(&layout),
        Ok(Some("assets/wallpaper-test.png".into()))
    );
    layout.wallpaper_asset = Some("https://example.com/bg.png".into());
    assert!(wallpaper_asset(&layout).unwrap_err().contains("URL"));
    let empty = DecodedImage {
        width: 0,
        height: 4,
        data: Vec::new(),
    };
    assert_eq!(
        frame_of_image(&empty).unwrap_err(),
        "Wallpaper exceeds compositor working-set limit"
    );
}

#[test]
fn wallpaper_covers_the_background() {
    let mut layout = solid_layout();
    layout.background_type = "wallpaper".into();
    layout.wallpaper_asset = Some("assets/unused.png".into());
    let scene = Scene::from_layout_with_wallpaper(32, 32, &layout, None, None, true).unwrap();
    assert_eq!(scene.layers.len(), 1);
    assert_eq!(scene.layers[0].role, LayerRole::Background);
    assert_eq!(scene.layers[0].place, place(0, 0, 32, 32));
    assert!(scene.layers[0].cover);
}

#[test]
fn borders_lie_behind_the_webcam() {
    let webcam = VideoFrame::solid(16, 16, 0, 255, 0, 0).unwrap();
    let mut layout = solid_layout();
    layout.padding_px = 0;
    layout.webcam_enabled = true;
    layout.webcam_border_width = 3;
    layout.webcam_border_color = "#6366f1".into();
    layout.webcam_shadow = true;
    let scene = from_layout(64, 64, &layout, None, Some(&webcam));
    assert_eq!(scene.layers.len(), 2);
    let border = &scene.layers[0];
    let cam = &scene.layers[1];
    assert_eq!(
        border.content,
        LayerContent::Color {
            blue: 0xf1,
            green: 0x66,
            red: 0x63
        }
    );
    assert_eq!(border.place.x + 3, cam.place.x);
    assert_eq!(border.place.width, cam.place.width + 6);
    assert!(border.shadow.is_some() && cam.shadow.is_none());
    layout.padding_px = 32;
    assert_eq!(
        content_rect(64, 64, &layout).unwrap_err(),
        "Export padding leaves no content rectangle"
    );
}

#[test]
fn webcams_are_placed_in_their_corner() {
    let look = WebcamLook {
        width: 16,
        height: 8,
        target: 20,
        scaled: 10,
        custom_x: 7,
        custom_y: 500,
    };
    assert_eq!(webcam_bubble_size(100, 50, look, "rect"), (20, 10));
    assert_eq!(webcam_bubble_size(100, 50, look, "circle"), (10, 10));
    assert_eq!(webcam_origin(100, 50, 20, 10, "top-left", look), (8, 8));
    assert_eq!(webcam_origin(100, 50, 20, 10, "top-right", look), (72, 8));
    assert_eq!(webcam_origin(100, 50, 20, 10, "bottom-left", look), (8, 32));
    assert_eq!(webcam_origin(100, 50, 20, 10, "bottom-right", look), (72, 32));
    assert_eq!(webcam_origin(100, 50, 20, 10, "custom", look), (7, 40));
    assert_eq!(webcam_permille("sm"), 125);
    assert_eq!(webcam_permille("md"), 200);
    assert_eq!(webcam_permille("lg"), 280);
    assert_eq!(webcam_permille("xl"), 360);
    assert_eq!(clip_code(ClipMode::Squircle), 3);
    let none = SourceFit {
        width: 0,
        height: 4,
        wider: false,
        scaled: 9,
    };
    assert_eq!(fit_inside(none, place(1, 2, 0, 5)), place(1, 2, 1, 5));
}

#[test]
fn rows_are_padded_and_taken_back() {
    assert_eq!(padded_bytes_per_row(1), 256);
    assert_eq!(padded_bytes_per_row(64), 256);
    assert_eq!(padded_bytes_per_row(65), 512);
    let frame = VideoFrame::solid(16, 16, 1, 2, 3, 0).unwrap();
    let rgba = bgra_to_rgba(&frame);
    assert_eq!(rgba[..4], [3, 2, 1, 255]);
    assert_eq!(rgba_to_bgra(&rgba), frame.data);
    let padded = pad_rows(&rgba, 64, 256, 16);
    assert_eq!(padded.len(), 256 * 16);
    assert_eq!(padded[64], 0);
    assert_eq!(unpad_rows(&padded, 64, 256, 16), rgba);
    assert_eq!(rgba_to_bgra(&[1, 2, 3, 4, 5]), vec![3, 2, 1, 4, 0]);
}

#[test]
fn layers_without_a_size_are_refused() {
    let mut out = VideoFrame::solid(8, 8, 0, 0, 0, 0).unwrap();
    let picture = VideoFrame::solid(2, 2, 9, 9, 9, 0).unwrap();
    let s = Sampling {
        rows: Vec::new(),
        columns: Vec::new(),
        inside: Vec::new(),
    };
    assert_eq!(
        blit_nearest(&mut out, &picture, place(0, 0, 0, 0), &s).unwrap_err(),
        "Layer size is empty"
    );
    // What lies beyond the canvas is not drawn.
    let s = Sampling {
        rows: vec![0, 1],
        columns: vec![0, 1],
        inside: vec![true; 4],
    };
    blit_nearest(&mut out, &picture, place(7, 7, 2, 2), &s).unwrap();
    assert_eq!(out.data.iter().filter(|b| **b == 9).count(), 3);
    assert_eq!(pixel(&out, 7, 7), [9, 9, 9, 255]);
}

#[test]
fn styled_previews_place_the_screen_and_the_webcam() {
    let scene = Scene::styled_preview(true);
    assert_eq!((scene.width, scene.height), (64, 64));
    assert_eq!(scene.background, [13, 31, 71]);
    assert_eq!(scene.layers[0].place, place(12, 16, 40, 32));
    assert_eq!(scene.layers[1].place, place(46, 4, 12, 12));
    assert_eq!(Scene::styled_preview(false).layers.len(), 1);
}

#[test]
fn regions_are_summed_inside_the_frame() {
    let frame = VideoFrame::solid(64, 64, 1, 2, 3, 0).unwrap();
    let screen = compared_regions()[1];
    let sum = region_sum(&frame, screen);
    assert_eq!((sum.blue, sum.green, sum.red, sum.count), (96, 192, 288, 96));
    let edge = Region {
        x: 62,
        y: 63,
        width: 10,
        height: 10,
    };
    let sum = region_sum(&frame, edge);
    assert_eq!((sum.blue, sum.green, sum.red, sum.count), (2, 4, 6, 2));
    let outside = Region {
        x: 64,
        y: 0,
        width: 4,
        height: 4,
    };
    assert_eq!(region_sum(&frame, outside).count, 0);
}

#[test]
fn empty_webcams_take_their_share_of_the_canvas() {
    let look = WebcamLook {
        width: 0,
        height: 0,
        target: 20,
        scaled: 0,
        custom_x: 0,
        custom_y: 0,
    };
    let mut layout = solid_layout();
    layout.webcam_enabled = true;
    layout.webcam_border_width = 0;
    let scene =
        Scene::from_layout_with_wallpaper(100, 100, &layout, None, Some(look), false).unwrap();
    let bubble = layer(&scene, LayerRole::Webcam);
    assert_eq!((bubble.place.width, bubble.place.height), (20, 20));
}

#[test]
fn wallpapers_follow_what_their_decoding_came_to() {
    let two = DecodedImage {
        width: 2,
        height: 1,
        data: vec![1, 2, 3, 0, 4, 5, 6, 128],
    };
    let frame = frame_of_decoded(Ok(two)).unwrap();
    assert_eq!(frame.data, vec![3, 2, 1, 255, 6, 5, 4, 255]);
    assert_eq!(
        frame_of_decoded(Err("no such format".into())).unwrap_err(),
        "Wallpaper decode failed: no such format"
    );
    let wide = DecodedImage {
        width: 4097,
        height: 1,
        data: vec![0; 4 * 4097],
    };
    assert_eq!(
        frame_of_decoded(Ok(wide)).unwrap_err(),
        "Wallpaper exceeds compositor working-set limit"
    );
    // Two files give two pictures.
    let png = |pixels: &[u8]| {
        let mut bytes = Vec::new();
        image::codecs::png::PngEncoder::new(&mut bytes)
            .write_image(pixels, 2, 1, ExtendedColorType::Rgba8)
            .unwrap();
        load_wallpaper_frame(&bytes).unwrap().data
    };
    assert_eq!(png(&[1, 2, 3, 255, 4, 5, 6, 255]), vec![3, 2, 1, 255, 6, 5, 4, 255]);
    assert_eq!(png(&[9, 8, 7, 255, 0, 0, 1, 255]), vec![7, 8, 9, 255, 1, 0, 0, 255]);
}
