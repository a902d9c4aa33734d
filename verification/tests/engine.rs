use pixie_stitch::blend::{blend_pixel, BlendMode};
use pixie_stitch::buffer::PixelBuffer;
use pixie_stitch::canvas::{render_pattern_canvas, render_pattern_cells, PatternVariant};
use pixie_stitch::dirs::{create_patterns_dir, create_patterns_dir_centered, create_preview_dir};
use pixie_stitch::font::Font;
use pixie_stitch::hsl::color_lt;
use pixie_stitch::labels::{compute_axis_labels, place_grid_labels_in_pattern, vertical_label_text};
use pixie_stitch::legend::{
    create_legend_entry, legend_colors_line, legend_size_line, legend_stitches_line,
};
use pixie_stitch::numfmt::int_to_dec;
use pixie_stitch::palette::extract_palette;
use pixie_stitch::patterns::{create_cross_stitch_pattern, pattern_artifact_name};
use pixie_stitch::pixel::{contrast_ink_for, Pixel};
use pixie_stitch::preview::render_stitch_layer;
use pixie_stitch::segments::{create_pattern_page_layout, to_segments};
use pixie_stitch::symbols::{
    create_alphanumeric_symbols, create_color_mappings_from_image, is_numeric_symbol_name,
    ColorInfo,
};

fn image_from_colors(width: usize, height: usize, colors: &[Pixel]) -> PixelBuffer {
    assert_eq!(colors.len(), width * height);
    let mut bytes: Vec<u8> = Vec::new();
    for c in colors {
        bytes.push(c.r);
        bytes.push(c.g);
        bytes.push(c.b);
        bytes.push(c.a);
    }
    PixelBuffer::from_rgba_bytes(width, height, &bytes)
}

fn px(r: u8, g: u8, b: u8, a: u8) -> Pixel {
    Pixel::new(r, g, b, a)
}

fn white_tile() -> PixelBuffer {
    PixelBuffer::new_filled(16, 16, px(10, 20, 30, 255))
}

fn symbol_pool(n: usize) -> Vec<PixelBuffer> {
    // distinct marks: each symbol tile carries its index in the red channel
    let mut pool = Vec::new();
    for k in 0..n {
        pool.push(PixelBuffer::new_filled(16, 16, px(k as u8, 0, 0, 255)));
    }
    pool
}

fn small_font() -> Font {
    // an 8x8 font whose glyphs are solid opaque blocks
    let mut font = Font::new(8, 8);
    for c in 32u8..127u8 {
        let glyph = PixelBuffer::new_filled(8, 8, px(0, 0, 0, 255));
        font.set_glyph(c, glyph);
    }
    font
}

fn mappings_for(image: &PixelBuffer, nsym: usize) -> Vec<ColorInfo> {
    let font = small_font();
    let alnum = create_alphanumeric_symbols(&font);
    let pool = symbol_pool(nsym);
    let stitches: Vec<PixelBuffer> = Vec::new();
    let lums: Vec<PixelBuffer> = Vec::new();
    create_color_mappings_from_image(image, &pool, &alnum, &stitches, &lums)
        .unwrap_or_else(|_| panic!("not enough symbols for this image"))
}

fn thin() -> Pixel {
    Pixel::new(128, 128, 128, 255)
}

fn thick() -> Pixel {
    Pixel::new(64, 64, 64, 255)
}

fn white() -> Pixel {
    Pixel::new(255, 255, 255, 255)
}

// An image of only fully-transparent pixels has an empty palette, and its
// canvas is blank: white cells under gray grid lines, nothing else.
#[test]
fn transparent_image_empty_palette_blank_canvas() {
    let image = image_from_colors(4, 3, &vec![px(9, 9, 9, 0); 12]);
    let palette = extract_palette(&image);
    assert_eq!(palette.len(), 0);

    let mappings: Vec<ColorInfo> = Vec::new();
    let canvas = render_pattern_cells(
        &image, &mappings, false, true, true, white(), 0, 0, true, false,
    );
    assert_eq!(canvas.width(), 64);
    assert_eq!(canvas.height(), 48);
    for y in 0..canvas.height() {
        for x in 0..canvas.width() {
            let p = canvas.get(x, y);
            assert!(p == white() || p == thin() || p == thick());
        }
    }
}

// Palette extraction is deterministic and orders by hue: red before green
// before blue, whatever the scan order was.
#[test]
fn palette_sort_deterministic_and_perceptual() {
    let blue = px(0, 0, 200, 255);
    let green = px(0, 200, 0, 255);
    let red = px(200, 0, 0, 255);
    let image = image_from_colors(3, 2, &[blue, green, red, blue, blue, green]);
    let palette = extract_palette(&image);
    assert_eq!(palette.len(), 3);
    assert!(palette[0].color == red && palette[0].count == 1);
    assert!(palette[1].color == green && palette[1].count == 2);
    assert!(palette[2].color == blue && palette[2].count == 3);

    let again = extract_palette(&image);
    assert_eq!(palette.len(), again.len());
    for k in 0..palette.len() {
        assert!(palette[k].color == again[k].color);
        assert_eq!(palette[k].count, again[k].count);
    }
}

#[test]
fn color_order_is_strict() {
    let red = px(200, 0, 0, 255);
    let green = px(0, 200, 0, 255);
    assert!(color_lt(red, green));
    assert!(!color_lt(green, red));
    assert!(!color_lt(red, red));
}

// Glyph assignment is exhaustive-or-rejected: with fewer symbols than
// colors the operation fails with the exact counts and yields nothing;
// with enough symbols every color gets the symbol at its own position.
#[test]
fn symbol_assignment_rejects_when_short() {
    let image = image_from_colors(
        3,
        1,
        &[px(1, 0, 0, 255), px(2, 0, 0, 255), px(3, 0, 0, 255)],
    );
    let font = small_font();
    let alnum = create_alphanumeric_symbols(&font);
    let pool = symbol_pool(2);
    let e = create_color_mappings_from_image(&image, &pool, &alnum, &Vec::new(), &Vec::new())
        .err()
        .expect("two symbols cannot cover three colors");
    assert_eq!(e.colors, 3);
    assert_eq!(e.symbols_available, 2);
    assert!(!e.alphanumeric);
}

#[test]
fn symbol_assignment_rejects_when_alphanumeric_pool_short() {
    // 36 distinct colors exceed the 35 alphanumeric symbols even though
    // the graphic pool is large enough
    let colors: Vec<Pixel> = (0..36).map(|k| px(k as u8, 5, 5, 255)).collect();
    let image = image_from_colors(36, 1, &colors);
    let font = small_font();
    let alnum = create_alphanumeric_symbols(&font);
    let pool = symbol_pool(40);
    let e = create_color_mappings_from_image(&image, &pool, &alnum, &Vec::new(), &Vec::new())
        .err()
        .expect("thirty-five alphanumeric symbols cannot cover thirty-six colors");
    assert_eq!(e.colors, 36);
    assert_eq!(e.symbols_available, 35);
    assert!(e.alphanumeric);
}

#[test]
fn symbol_assignment_is_positional_and_distinct() {
    let image = image_from_colors(
        3,
        1,
        &[px(1, 0, 0, 255), px(2, 0, 0, 255), px(3, 0, 0, 255)],
    );
    let mappings = mappings_for(&image, 6);
    assert_eq!(mappings.len(), 3);
    let pool = symbol_pool(6);
    for k in 0..3 {
        assert!(mappings[k].symbol.eq_image(&pool[k]));
    }
    // no two colors share a symbol: the marks differ pairwise
    assert!(!mappings[0].symbol.eq_image(&mappings[1].symbol));
    assert!(!mappings[1].symbol.eq_image(&mappings[2].symbol));
    assert!(!mappings[0].symbol.eq_image(&mappings[2].symbol));
}

// Grid-closing invariant: an N-cell-wide canvas shows exactly N+1 vertical
// grid lines (and M+1 horizontal ones).
#[test]
fn grid_closing_counts_lines() {
    let image = image_from_colors(3, 2, &vec![px(0, 0, 0, 0); 6]);
    let mappings: Vec<ColorInfo> = Vec::new();
    let canvas = render_pattern_cells(
        &image, &mappings, false, false, false, white(), 0, 0, false, false,
    );
    let mut vlines: usize = 0;
    for x in 0..canvas.width() {
        let mut all_thin = true;
        for y in 0..canvas.height() {
            if canvas.get(x, y) != thin() {
                all_thin = false;
            }
        }
        if all_thin {
            vlines += 1;
        }
    }
    assert_eq!(vlines, 4);
    let mut hlines: usize = 0;
    for y in 0..canvas.height() {
        let mut all_thin = true;
        for x in 0..canvas.width() {
            if canvas.get(x, y) != thin() {
                all_thin = false;
            }
        }
        if all_thin {
            hlines += 1;
        }
    }
    assert_eq!(hlines, 3);
}

// Shifting the logical origin by a multiple of ten leaves the canvas
// unchanged; shifting by one moves the thick lines.
#[test]
fn ten_grid_alignment_follows_logical_origin() {
    let colors: Vec<Pixel> = (0..12).map(|k| px(k as u8, 7, 7, 255)).collect();
    let image = image_from_colors(12, 1, &colors);
    let mappings = mappings_for(&image, 12);
    let a = render_pattern_cells(&image, &mappings, false, true, true, white(), 0, 0, true, false);
    let b = render_pattern_cells(
        &image, &mappings, false, true, true, white(), -20, 0, true, false,
    );
    assert!(a.eq_image(&b));
    let c = render_pattern_cells(&image, &mappings, false, true, true, white(), 1, 0, true, false);
    assert!(!a.eq_image(&c));
    // with origin 0, cells 0 and 10 open with a thick line
    assert!(a.get(0, 8) == thick());
    assert!(a.get(160, 8) == thick());
    // with origin 1, the thick line sits at cell 9 (logical 10) instead
    assert!(c.get(0, 8) != thick());
    assert!(c.get(144, 8) == thick());
}

// Centered-mode vertical labels read the negated logical coordinate.
#[test]
fn vertical_labels_negate_logical_y() {
    assert_eq!(vertical_label_text(7), b"-7".to_vec());
    assert_eq!(vertical_label_text(-12), b"12".to_vec());
    assert_eq!(vertical_label_text(0), b"0".to_vec());
}

#[test]
fn axis_labels_every_ten_plus_wide_partial_blocks() {
    // start 4: first multiple of ten is 10 (cell 6), partial first block
    // spans 6 > 3 units, so the start coordinate is labeled too
    let labels = compute_axis_labels(4, 13);
    assert_eq!(labels, vec![(6, 10), (0, 4), (13, 17)]);
    // start 0: multiples at cells 0 and 10; both partial blocks narrow
    let labels0 = compute_axis_labels(0, 12);
    assert_eq!(labels0, vec![(0, 0), (10, 10)]);
}

#[test]
fn decimal_text_forms() {
    assert_eq!(int_to_dec(0), b"0".to_vec());
    assert_eq!(int_to_dec(907), b"907".to_vec());
    assert_eq!(int_to_dec(-7), b"-7".to_vec());
}

// Round-trip scenario: a 3x2 opaque image with three distinct colors and
// six symbols renders as one segment; the complete output set holds the
// four pattern variants plus a legend, and the legend reports the exact
// size, color count and stitch count.
#[test]
fn round_trip_three_color_image() {
    let image = image_from_colors(
        3,
        2,
        &[
            px(200, 0, 0, 255),
            px(0, 200, 0, 255),
            px(0, 0, 200, 255),
            px(200, 0, 0, 255),
            px(0, 200, 0, 255),
            px(200, 0, 0, 255),
        ],
    );
    let (segs, _coords) = to_segments(&image, 60, 80);
    assert_eq!(segs.len(), 1);

    let mappings = mappings_for(&image, 6);
    let font = small_font();
    let font_big = small_font();
    let out = create_patterns_dir(&image, &font, &font_big, &mappings);
    assert_eq!(out.artifacts.len(), 4);
    assert_eq!(out.artifacts[0].name, b"cross_stitch_colorized_complete".to_vec());
    assert_eq!(out.artifacts[1].name, b"cross_stitch_complete".to_vec());
    assert_eq!(
        out.artifacts[2].name,
        b"cross_stitch_colorized_no_symbols_complete".to_vec()
    );
    assert_eq!(out.artifacts[3].name, b"paint_by_numbers_complete".to_vec());
    assert!(out.legend.width() > 0 && out.legend.height() > 0);

    assert_eq!(legend_size_line(3, 2), b"Size:     3x2".to_vec());
    assert_eq!(legend_colors_line(3), b"Colors:   3".to_vec());
    assert_eq!(legend_stitches_line(6), b"Stitches: 6".to_vec());
}

// Preview compositing is deterministic: the same seed gives a byte-equal
// stitch layer on every run.
#[test]
fn preview_stitch_layer_is_seed_deterministic() {
    let color = px(30, 60, 90, 255);
    let image = image_from_colors(2, 2, &[color, color, px(0, 0, 0, 0), color]);
    let stitch_a = PixelBuffer::new_filled(6, 6, px(50, 50, 50, 200));
    let stitch_b = PixelBuffer::new_filled(6, 6, px(90, 10, 10, 200));
    let info = ColorInfo {
        color,
        count: 3,
        symbol: white_tile(),
        symbol_alphanum: white_tile(),
        stitches_premultiplied: vec![stitch_a, stitch_b],
    };
    let mappings = vec![info];
    let one = render_stitch_layer(&image, &mappings, 42, 2, 4, 4);
    let two = render_stitch_layer(&image, &mappings, 42, 2, 4, 4);
    assert!(one.eq_image(&two));
    let other_seed = render_stitch_layer(&image, &mappings, 43, 2, 4, 4);
    assert_eq!(other_seed.width(), one.width());
    assert_eq!(other_seed.height(), one.height());
}

#[test]
fn preview_dir_names_and_dims() {
    let color = px(30, 60, 90, 255);
    let image = image_from_colors(2, 1, &[color, color]);
    let stitch = PixelBuffer::new_filled(6, 6, px(50, 50, 50, 200));
    let info = ColorInfo {
        color,
        count: 2,
        symbol: white_tile(),
        symbol_alphanum: white_tile(),
        stitches_premultiplied: vec![stitch],
    };
    let mappings = vec![info];
    let bg = PixelBuffer::new_filled(16, 16, px(220, 210, 190, 255));
    let arts = create_preview_dir(&image, &mappings, &bg, 1);
    assert_eq!(arts.len(), 3);
    assert_eq!(arts[0].name, b"complete_background".to_vec());
    assert_eq!(arts[1].name, b"complete_stitches".to_vec());
    assert_eq!(arts[2].name, b"complete".to_vec());
    // the canvas grows by ten border cells on each side, two pixels per cell
    assert_eq!(arts[0].image.width(), 2 * (2 + 20));
    assert_eq!(arts[0].image.height(), 2 * (1 + 20));
    assert!(arts[2].image.width() == arts[0].image.width());
}

#[test]
fn contrast_ink_black_over_light_white_over_dark() {
    assert!(contrast_ink_for(px(255, 255, 255, 255)) == px(0, 0, 0, 255));
    assert!(contrast_ink_for(px(0, 0, 0, 255)) == px(255, 255, 255, 255));
    assert!(contrast_ink_for(px(10, 10, 60, 255)) == px(255, 255, 255, 255));
}

#[test]
fn normal_blend_of_opaque_source_replaces() {
    let red = px(200, 10, 10, 255);
    let blue = px(0, 0, 250, 255);
    assert!(blend_pixel(BlendMode::Normal, red, blue) == red);
}

#[test]
fn segmentation_tiles_row_major_with_edge_sizes() {
    let image = image_from_colors(130, 85, &vec![px(5, 5, 5, 255); 130 * 85]);
    let (segs, coords) = to_segments(&image, 60, 80);
    assert_eq!(segs.len(), 6);
    assert_eq!(coords, vec![(0, 0), (1, 0), (2, 0), (0, 1), (1, 1), (2, 1)]);
    assert_eq!(segs[0].width(), 60);
    assert_eq!(segs[2].width(), 10);
    assert_eq!(segs[0].height(), 80);
    assert_eq!(segs[3].height(), 5);
}

#[test]
fn numeric_symbol_file_names() {
    assert!(is_numeric_symbol_name(&b"123".to_vec()));
    assert!(is_numeric_symbol_name(&b"+7".to_vec()));
    assert!(!is_numeric_symbol_name(&b"12a".to_vec()));
    assert!(!is_numeric_symbol_name(&b"".to_vec()));
    assert!(!is_numeric_symbol_name(&b"symbol".to_vec()));
    assert!(is_numeric_symbol_name(&b"4294967295".to_vec()));
    assert!(!is_numeric_symbol_name(&b"4294967296".to_vec()));
}

#[test]
fn artifact_names_encode_variant_and_segment() {
    assert_eq!(
        pattern_artifact_name(PatternVariant::Colorized, Some(2)),
        b"cross_stitch_colorized_segment_2".to_vec()
    );
    assert_eq!(
        pattern_artifact_name(PatternVariant::PaintByNumbers, None),
        b"paint_by_numbers_complete".to_vec()
    );
    assert_eq!(
        pattern_artifact_name(PatternVariant::BlackAndWhite, Some(11)),
        b"cross_stitch_segment_11".to_vec()
    );
}

#[test]
fn centered_origin_pads_edges_for_bars() {
    let image = image_from_colors(2, 2, &vec![px(9, 9, 9, 255); 4]);
    let mappings = mappings_for(&image, 4);
    // logical origin on the left and top edges: both sides pad by two
    let canvas = render_pattern_canvas(
        &image, &mappings, false, true, true, white(), 0, 0, false, true,
    );
    assert_eq!(canvas.width(), 34);
    assert_eq!(canvas.height(), 34);
    // the vertical bar: black at column 0, white at columns 1 and 2
    assert!(canvas.get(0, 20) == px(0, 0, 0, 255));
    assert!(canvas.get(1, 20) == white());
    // without origin bars there is no padding
    let plain = render_pattern_canvas(
        &image, &mappings, false, true, true, white(), 0, 0, false, false,
    );
    assert_eq!(plain.width(), 32);
    assert_eq!(plain.height(), 32);
}

#[test]
fn legend_entry_shows_swatch_color() {
    let info = ColorInfo {
        color: px(1, 2, 3, 255),
        count: 12,
        symbol: white_tile(),
        symbol_alphanum: white_tile(),
        stitches_premultiplied: Vec::new(),
    };
    let font = small_font();
    let entry = create_legend_entry(&font, &info);
    // interior of the swatch, inside the black border
    assert!(entry.get(3, 3) == px(1, 2, 3, 255));
}

#[test]
fn alphanumeric_symbols_are_white_marks_on_transparent() {
    let font = small_font();
    let symbols = create_alphanumeric_symbols(&font);
    assert_eq!(symbols.len(), 35);
    for s in &symbols {
        assert_eq!(s.width(), 16);
        assert_eq!(s.height(), 16);
    }
    // the glyph block is centered: (16-8)/2 = 4
    assert!(symbols[0].get(4, 4) == px(255, 255, 255, 255));
    assert!(symbols[0].get(0, 0) == px(0, 0, 0, 0));
}

#[test]
fn centered_dir_produces_segment_sets() {
    let image = image_from_colors(61, 2, &vec![px(40, 80, 120, 255); 122]);
    let mappings = mappings_for(&image, 2);
    let font = small_font();
    let out = create_patterns_dir_centered(&image, &font, &font, &mappings);
    // two pages: the complete set of four plus three variants per page
    assert_eq!(out.artifacts.len(), 4 + 3 * 2);
    assert_eq!(
        out.artifacts[4].name,
        b"cross_stitch_colorized_segment_1".to_vec()
    );
    assert_eq!(out.artifacts[7].name, b"cross_stitch_colorized_segment_2".to_vec());
}

#[test]
fn pattern_caption_titles_individual_pages() {
    let image = image_from_colors(2, 1, &vec![px(9, 9, 9, 255); 2]);
    let mappings = mappings_for(&image, 2);
    let font = small_font();
    let with_caption = create_cross_stitch_pattern(
        &image,
        &font,
        &font,
        &mappings,
        Some(3),
        0,
        0,
        PatternVariant::Colorized,
        false,
        false,
        white(),
    );
    let without = create_cross_stitch_pattern(
        &image,
        &font,
        &font,
        &mappings,
        None,
        0,
        0,
        PatternVariant::Colorized,
        false,
        false,
        white(),
    );
    // the caption band adds three lines of the heading font
    assert_eq!(with_caption.height(), without.height() + 24);
}

// The coordinate labels are actually stamped on the margins: with a font
// of solid opaque glyphs, the cell-zero label's glyph pixels land at the
// computed centered position on the top margin.
#[test]
fn grid_labels_are_stamped_on_margins() {
    let font = small_font();
    let canvas = PixelBuffer::new_filled(192, 16, white());
    let labeled = place_grid_labels_in_pattern(&canvas, 16, &font, 0, 0);
    // max label length is 2 ("12"), so the padding is 8 * (2 + 4) = 48
    assert_eq!(labeled.width(), 192 + 96);
    assert_eq!(labeled.height(), 16 + 96);
    // the "0" label of cell 0: top-left of its glyph block at
    // (48 - 4, 24 - 4); the solid glyph paints it black
    assert!(labeled.get(44, 20) == px(0, 0, 0, 255));
    // same label mirrored on the bottom margin
    assert!(labeled.get(44, labeled.height() - 24 - 4) == px(0, 0, 0, 255));
    // a margin corner no label reaches stays white
    assert!(labeled.get(0, 0) == white());
    // the canvas content survives, shifted by the padding
    assert!(labeled.get(48, 48) == white());
}

// The page-overview diagram draws each box border in black and stamps the
// centered page number inside the box.
#[test]
fn page_layout_draws_boxes_and_numbers() {
    let font = small_font();
    let layout = vec![(0usize, 0usize), (1usize, 0usize)];
    let diagram = create_pattern_page_layout(&font, &layout);
    // the caption line (23 characters of the 8-pixel font) is wider than
    // the two 25-pixel tiles, so it sets the diagram width
    assert_eq!(diagram.width(), 23 * 8);
    // box corner of page one, below the 32-pixel caption band
    assert!(diagram.get(0, 32) == px(0, 0, 0, 255));
    // the number "1", centered: glyph block starts at (8, 15) inside the
    // grid; the solid glyph paints it black
    assert!(diagram.get(8, 32 + 15) == px(0, 0, 0, 255));
    // the caption line sits two lines down and is painted by the solid
    // glyphs of "Pattern parts overview:"
    assert!(diagram.get(0, 16) == px(0, 0, 0, 255));
}

// The legend appends the page diagram, separated by a black rule, exactly
// when the pattern spans several pages.
#[test]
fn legend_separator_rule_iff_pages() {
    let image = image_from_colors(1, 1, &[px(40, 80, 120, 255)]);
    let mappings = mappings_for(&image, 1);
    let font = small_font();
    // seven 8-pixel statistics lines + one 16-row block + 24 padding
    let core_h = 7 * 8 + 16 + 24;
    let two_pages = vec![(0usize, 0usize), (1usize, 0usize)];
    let with_pages = pixie_stitch::legend::create_cross_stitch_legend(
        1, 1, &mappings, &font, &two_pages,
    );
    assert!(with_pages.get(20, 16 + core_h) == px(0, 0, 0, 255));
    let one_page = vec![(0usize, 0usize)];
    let without = pixie_stitch::legend::create_cross_stitch_legend(
        1, 1, &mappings, &font, &one_page,
    );
    assert_eq!(without.height(), 32 + core_h);
    // the band padding ends the legend: white, no rule, no diagram
    for j in (without.height() - 40)..(without.height() - 16) {
        assert!(without.get(20, j) == white());
    }
}

// A legend entry carries the black borders of its swatch and symbol cells
// and its stitch-count label.
#[test]
fn legend_entry_borders_and_label() {
    let info = ColorInfo {
        color: px(1, 2, 3, 255),
        count: 12,
        symbol: white_tile(),
        symbol_alphanum: white_tile(),
        stitches_premultiplied: Vec::new(),
    };
    let font = small_font();
    let entry = create_legend_entry(&font, &info);
    // swatch border and symbol-cell border corners
    assert!(entry.get(0, 0) == px(0, 0, 0, 255));
    assert!(entry.get(16, 0) == px(0, 0, 0, 255));
    assert!(entry.get(31, 15) == px(0, 0, 0, 255));
    // the symbol tile differs from the white mask everywhere, so the
    // whole cell interior is stamped in contrast ink (black over white)
    assert!(entry.get(20, 8) == px(0, 0, 0, 255));
    // the label region: solid glyphs paint the text band black
    assert!(entry.get(34, 4) == px(0, 0, 0, 255));
}
