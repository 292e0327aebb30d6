use vai::dynamo::{can_scale, move_cursor, Point, ScreenSize};
use vai::fingerprint::{
    fingerprint_table, pixels_to_cells, rgb_to_html, sort_cells, table_fits, tiers, Cell, Tier,
    LockedRect, TOTAL_CELLS,
};

fn surface() -> LockedRect {
    // A 4 by 4 surface; each word holds blue 48 + k, green 32, red 16.
    let bits: Vec<u32> = (0..16u32).map(|k| 0x0010_2030 + k).collect();
    LockedRect { bits, pitch: 16 }
}

#[test]
fn move_cursor_scales_to_absolute_coordinates() {
    let screen = ScreenSize { w: 1920, h: 1080 };
    let p: Point = move_cursor(960, 540, &screen);
    assert_eq!((p.x, p.y), (32785, 32798));
    let q = move_cursor(-10, 0, &screen);
    assert_eq!((q.x, q.y), (-341, 0));
    let r = move_cursor(1919, 1079, &screen);
    assert_eq!((r.x, r.y), (65536, 65536));
}

#[test]
fn pixels_to_cells_averages_blue_green_red() {
    let mut pixels = vec![0u8; 4 * TOTAL_CELLS];
    pixels[0] = 10;
    pixels[1] = 20;
    pixels[2] = 31;
    pixels[3] = 255;
    pixels[4 * 399] = 255;
    pixels[4 * 399 + 1] = 255;
    pixels[4 * 399 + 2] = 254;
    let cells = pixels_to_cells(&pixels);
    assert_eq!(cells.len(), 400);
    assert_eq!(cells[0], Cell { index: 0, avg_light: 20 });
    assert_eq!(cells[1], Cell { index: 1, avg_light: 0 });
    assert_eq!(cells[399], Cell { index: 399, avg_light: 254 });
}

#[test]
fn rgb_to_html_writes_rows_of_twenty() {
    let mut pixels = vec![0u8; 4 * TOTAL_CELLS];
    pixels[0] = 3;
    pixels[1] = 2;
    pixels[2] = 1;
    let cells = pixels_to_cells(&pixels);
    let html = rgb_to_html(&pixels, &cells);
    let first = "<tr><td style=\"background-color:rgb(1,2,3);width:20;height:20\"></td>";
    assert!(html.starts_with(first));
    assert!(html.ends_with("</tr>\n"));
    assert_eq!(html.matches("<tr>").count(), 20);
    assert_eq!(html.matches("</tr>\n").count(), 20);
    assert_eq!(html.matches("<td ").count(), 400);
}

#[test]
fn list_cells_reads_the_block_row_after_row() {
    let rect = surface();
    let cells = rect.list_cells(1, 1, 2, 2);
    assert_eq!(
        cells,
        vec![
            Cell { index: 0, avg_light: 33 },
            Cell { index: 1, avg_light: 34 },
            Cell { index: 2, avg_light: 35 },
            Cell { index: 3, avg_light: 35 },
        ]
    );
}

#[test]
fn write_html_shows_each_pixel() {
    let rect = surface();
    let html = rect.write_html(1, 1, 2, 2);
    let td = |b: u32| {
        format!("<td style=\"width:1px;height:1px;background-color:rgba(16,32,{},0)\"></td>", b)
    };
    let expected = format!(
        "<html><body><table border=\"0\" cellspacing=\"0\" cellpadding=\"0\"><tr>{}{}</tr><tr>{}{}</tr></table></body></html>",
        td(53),
        td(54),
        td(57),
        td(58)
    );
    assert_eq!(html, expected);
}

#[test]
fn sort_cells_puts_the_brightest_first() {
    let cells = vec![
        Cell { index: 0, avg_light: 5 },
        Cell { index: 1, avg_light: 9 },
        Cell { index: 2, avg_light: 5 },
        Cell { index: 3, avg_light: 7 },
    ];
    let sorted = sort_cells(&cells);
    assert_eq!(
        sorted,
        vec![
            Cell { index: 1, avg_light: 9 },
            Cell { index: 3, avg_light: 7 },
            Cell { index: 0, avg_light: 5 },
            Cell { index: 2, avg_light: 5 },
        ]
    );
}

#[test]
fn fingerprint_table_keeps_first_and_last_fifty() {
    let cells: Vec<Cell> = (0..400usize).map(|i| Cell { index: i, avg_light: (i % 256) as u8 }).collect();
    let table = fingerprint_table(&cells);
    assert_eq!(table.len(), 100);
    assert_eq!(table[0].index, 0);
    assert_eq!(table[49].index, 49);
    assert_eq!(table[50].index, 350);
    assert_eq!(table[99].index, 399);
}

fn block(light: u8) -> Vec<Cell> {
    (0..400usize).map(|i| Cell { index: i, avg_light: light }).collect()
}

fn table(close: usize, near: usize, far: usize) -> Vec<Cell> {
    let mut t = Vec::new();
    for k in 0..close {
        t.push(Cell { index: k, avg_light: 105 });
    }
    for k in 0..near {
        t.push(Cell { index: close + k, avg_light: 140 });
    }
    for k in 0..far {
        t.push(Cell { index: close + near + k, avg_light: 250 });
    }
    t
}

#[test]
fn tiers_grade_each_stored_cell() {
    let cells = block(100);
    let t = tiers(&table(2, 1, 1), &cells);
    assert_eq!(t, vec![Tier::Close, Tier::Close, Tier::Near, Tier::Far]);
    let edges = vec![
        Cell { index: 0, avg_light: 112 },
        Cell { index: 1, avg_light: 88 },
        Cell { index: 2, avg_light: 113 },
        Cell { index: 3, avg_light: 151 },
        Cell { index: 4, avg_light: 49 },
        Cell { index: 5, avg_light: 48 },
    ];
    assert_eq!(
        tiers(&edges, &cells),
        vec![Tier::Close, Tier::Close, Tier::Near, Tier::Near, Tier::Near, Tier::Far]
    );
    assert!(tiers(&Vec::new(), &cells).is_empty());
}

#[test]
fn fits_tells_whether_a_block_lies_on_the_surface() {
    let rect = surface();
    assert!(rect.fits(1, 1, 2, 2));
    assert!(rect.fits(0, 0, 4, 4));
    assert!(!rect.fits(3, 3, 2, 2));
    assert!(!rect.fits(-1, 0, 1, 1));
    assert!(rect.fits(0, 0, 5, 1));
    assert!(!rect.fits(0, 3, 5, 1));
    assert!(rect.fits(0, 0, 0, 0));
}

#[test]
fn can_scale_rules_out_overflow_and_division_by_zero() {
    assert!(can_scale(960, 1920));
    assert!(can_scale(-32768, 1920));
    assert!(!can_scale(32768, 1920));
    assert!(!can_scale(10, 1));
    assert!(!can_scale(10, i32::MIN));
    assert!(!can_scale(-32768, 0));
    assert!(can_scale(-32767, 0));
}

#[test]
fn table_fits_checks_every_index() {
    let t = vec![Cell { index: 3, avg_light: 1 }, Cell { index: 399, avg_light: 2 }];
    assert!(table_fits(&t, 400));
    assert!(!table_fits(&t, 399));
    assert!(table_fits(&Vec::new(), 0));
}

#[test]
fn pixels_to_cells_needs_only_the_bytes_it_reads() {
    let mut pixels = vec![0u8; 4 * TOTAL_CELLS - 1];
    pixels[4 * 399] = 3;
    pixels[4 * 399 + 1] = 3;
    pixels[4 * 399 + 2] = 3;
    let cells = pixels_to_cells(&pixels);
    assert_eq!(cells[399], Cell { index: 399, avg_light: 3 });
}
