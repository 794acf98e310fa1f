use turbo_html2pdf::layout::grid_slots::{build_grid, fits, mark, Spans};
use turbo_html2pdf::layout::table_widths::scale_to;

const PX: i64 = 1_000_000;

fn cell(cols: usize, rows: usize) -> Spans {
    Spans { cols, rows }
}

#[test]
fn cells_go_to_the_first_free_column() {
    let rows = vec![vec![cell(1, 2), cell(2, 1)], vec![cell(1, 1), cell(1, 1)]];
    assert!(fits(&rows));
    let (slots, ncols) = build_grid(&rows);
    assert_eq!(ncols, 3);
    let at: Vec<(usize, usize)> = slots.iter().map(|s| (s.row, s.col)).collect();
    assert_eq!(at, vec![(0, 0), (0, 1), (1, 1), (1, 2)]);
}

#[test]
fn spans_beyond_counting_do_not_fit() {
    assert!(!fits(&vec![vec![cell(usize::MAX, 1), cell(1, 1)]]));
    assert!(!fits(&vec![vec![cell(1, usize::MAX)]]));
}

#[test]
fn columns_shrink_no_further_than_their_content() {
    let cols = scale_to(&vec![100 * PX, 100 * PX], 120 * PX, &vec![90 * PX, 10 * PX]);
    assert_eq!(cols, vec![92 * PX, 28 * PX]);
    let tight = scale_to(&vec![100 * PX, 100 * PX], 10 * PX, &vec![90 * PX, 60 * PX]);
    assert_eq!(tight, vec![90 * PX, 60 * PX]);
}

#[test]
fn columns_grow_in_proportion() {
    let cols = scale_to(&vec![10 * PX, 30 * PX], 80 * PX, &vec![0, 0]);
    assert_eq!(cols, vec![20 * PX, 60 * PX]);
}

#[test]
fn marks_grow_no_further_than_they_must() {
    let mut occ = vec![vec![true], vec![false; 5]];
    mark(&mut occ, 1, 1, 2, 2);
    assert_eq!(
        occ,
        vec![
            vec![true, false, false],
            vec![false, true, true, false, false],
            vec![false, true, true],
        ]
    );
}
