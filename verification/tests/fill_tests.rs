use colorify::fill::fill_interior;

fn shell(nx: usize, ny: usize, nz: usize) -> Vec<bool> {
    let mut v = Vec::new();
    for z in 0..nz {
        for y in 0..ny {
            for x in 0..nx {
                v.push(x == 0 || y == 0 || z == 0 || x + 1 == nx || y + 1 == ny || z + 1 == nz);
            }
        }
    }
    v
}

#[test]
fn closed_cube_fills_its_centre() {
    let res = fill_interior(3, 3, 3, &shell(3, 3, 3));
    assert_eq!(res.len(), 27);
    for (i, r) in res.iter().enumerate() {
        if i == 13 {
            assert_eq!(*r, Some(4));
        } else {
            assert_eq!(*r, None);
        }
    }
}

#[test]
fn open_box_has_nothing_enclosed() {
    let res = fill_interior(3, 3, 3, &vec![false; 27]);
    assert_eq!(res, vec![None; 27]);
}

#[test]
fn hole_in_the_shell_leaves_it_hollow() {
    let mut s = shell(3, 3, 3);
    s[4] = false;
    let res = fill_interior(3, 3, 3, &s);
    assert_eq!(res, vec![None; 27]);
}

#[test]
fn each_enclosed_cell_takes_its_first_reaching_shell_cell() {
    let res = fill_interior(4, 3, 3, &shell(4, 3, 3));
    assert_eq!(res[17], Some(5));
    assert_eq!(res[18], Some(6));
    assert_eq!(res.iter().filter(|r| r.is_some()).count(), 2);
}

#[test]
fn deep_cell_takes_a_shell_cell_two_steps_away() {
    let res = fill_interior(5, 5, 5, &shell(5, 5, 5));
    assert_eq!(res.iter().filter(|r| r.is_some()).count(), 27);
    assert_eq!(res[62], Some(12));
    assert_eq!(res[31], Some(6));
}

#[test]
fn empty_box_gives_no_cells() {
    assert_eq!(fill_interior(0, 4, 4, &Vec::new()), Vec::new());
}
