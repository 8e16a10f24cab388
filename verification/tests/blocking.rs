use saker_rs::blocking::{div_ceil, macro_tile, macro_tile_count, micro_tiles, Blocking, MacroTile, MicroTile};

fn small() -> Blocking {
    Blocking { mc: 4, kc: 3, nc: 5, mr: 2, nr: 3 }
}

fn all_calls(m: usize, n: usize, k: usize, blk: &Blocking) -> Vec<(usize, Vec<MicroTile>)> {
    let count = macro_tile_count(m, n, blk);
    (0..count).map(|t| (t, micro_tiles(m, n, k, blk, &macro_tile(m, n, blk, t)))).collect()
}

#[test]
fn div_ceil_rounds_up() {
    assert_eq!(div_ceil(0, 4), 0);
    assert_eq!(div_ceil(1, 4), 1);
    assert_eq!(div_ceil(8, 4), 2);
    assert_eq!(div_ceil(9, 4), 3);
}

#[test]
fn macro_tiles_of_x86_blocking() {
    let blk = Blocking { mc: 64, kc: 256, nc: 256, mr: 8, nr: 8 };
    assert_eq!(macro_tile_count(100, 300, &blk), 4);
    assert_eq!(macro_tile(100, 300, &blk, 0), MacroTile { row: 0, col: 0, rows: 64, cols: 256 });
    assert_eq!(macro_tile(100, 300, &blk, 1), MacroTile { row: 0, col: 256, rows: 64, cols: 44 });
    assert_eq!(macro_tile(100, 300, &blk, 3), MacroTile { row: 64, col: 256, rows: 36, cols: 44 });
    assert_eq!(macro_tile_count(0, 300, &blk), 0);
}

#[test]
fn micro_tiles_run_depth_outermost() {
    let blk = Blocking { mc: 64, kc: 256, nc: 256, mr: 8, nr: 8 };
    let tile = MacroTile { row: 0, col: 0, rows: 10, cols: 10 };
    let calls = micro_tiles(10, 10, 300, &blk, &tile);
    assert_eq!(calls.len(), 8);
    assert_eq!(
        calls[0],
        MicroTile {
            row: 0, col: 0, depth: 0, rows: 8, cols: 8, depth_len: 256,
            a_start: 0, b_start: 0, c_start: 0, accumulate: false, full: true,
        }
    );
    assert_eq!(
        calls[3],
        MicroTile {
            row: 8, col: 8, depth: 0, rows: 2, cols: 2, depth_len: 256,
            a_start: 2400, b_start: 8, c_start: 88, accumulate: false, full: false,
        }
    );
    assert_eq!(
        calls[5],
        MicroTile {
            row: 0, col: 8, depth: 256, rows: 8, cols: 2, depth_len: 44,
            a_start: 256, b_start: 2568, c_start: 8, accumulate: true, full: false,
        }
    );
}

#[test]
fn empty_depth_gives_no_calls() {
    let tile = MacroTile { row: 0, col: 0, rows: 3, cols: 3 };
    assert!(micro_tiles(3, 3, 0, &small(), &tile).is_empty());
}

#[test]
fn every_term_is_computed_exactly_once() {
    let blk = small();
    for (m, n, k) in [(7usize, 11usize, 8usize), (4, 5, 3), (1, 1, 1), (9, 2, 7)] {
        let mut hits = vec![0u32; m * n * k];
        for (_, calls) in all_calls(m, n, k, &blk) {
            for call in calls {
                for i in 0..call.rows {
                    for j in 0..call.cols {
                        for p in 0..call.depth_len {
                            hits[((call.row + i) * n + call.col + j) * k + call.depth + p] += 1;
                        }
                    }
                }
            }
        }
        assert!(hits.iter().all(|&h| h == 1));
    }
}

#[test]
fn first_write_of_a_cell_stores_and_later_ones_add() {
    let blk = small();
    let (m, n, k) = (7usize, 11usize, 8usize);
    for (_, calls) in all_calls(m, n, k, &blk) {
        let mut written = vec![false; m * n];
        for call in calls {
            for i in 0..call.rows {
                for j in 0..call.cols {
                    let cell = (call.row + i) * n + call.col + j;
                    assert_eq!(call.accumulate, written[cell]);
                    written[cell] = true;
                }
            }
        }
    }
}

#[test]
fn every_access_is_in_bounds_and_at_its_place() {
    let blk = small();
    let (m, n, k) = (7usize, 11usize, 8usize);
    for (t, calls) in all_calls(m, n, k, &blk) {
        let tile = macro_tile(m, n, &blk, t);
        for call in calls {
            assert!(call.rows >= 1 && call.rows <= blk.mr);
            assert!(call.cols >= 1 && call.cols <= blk.nr);
            assert!(call.depth_len >= 1 && call.depth_len <= blk.kc);
            assert!(call.row >= tile.row && call.row + call.rows <= tile.row + tile.rows);
            assert!(call.col >= tile.col && call.col + call.cols <= tile.col + tile.cols);
            assert_eq!(call.full, call.rows == blk.mr && call.cols == blk.nr);
            assert_eq!(call.a_start, call.row * k + call.depth);
            assert_eq!(call.b_start, call.depth * n + call.col);
            assert_eq!(call.c_start, call.row * n + call.col);
            assert!(call.a_start + (call.rows - 1) * k + call.depth_len - 1 < m * k);
            assert!(call.b_start + (call.depth_len - 1) * n + call.cols - 1 < k * n);
            assert!(call.c_start + (call.rows - 1) * n + call.cols - 1 < m * n);
        }
    }
}

#[test]
fn macro_tiles_partition_the_output() {
    let blk = small();
    let (m, n) = (9usize, 12usize);
    let count = macro_tile_count(m, n, &blk);
    let mut hits = vec![0u32; m * n];
    for t in 0..count {
        let tile = macro_tile(m, n, &blk, t);
        assert!(tile.rows >= 1 && tile.cols >= 1);
        for r in tile.row..tile.row + tile.rows {
            for c in tile.col..tile.col + tile.cols {
                hits[r * n + c] += 1;
            }
        }
    }
    assert!(hits.iter().all(|&h| h == 1));
    // the cell (r, c) lies in tile (r / mc) * ceil(n / nc) + c / nc
    let tile = macro_tile(m, n, &blk, (6 / 4) * 3 + 11 / 5);
    assert!(tile.row <= 6 && 6 < tile.row + tile.rows && tile.col <= 11 && 11 < tile.col + tile.cols);
}
