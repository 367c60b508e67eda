use qsc_render::mesh::{make_sphere_indices, Sphere};
use qsc_render::sphere::{face_rgba, face_vertex_index, find_nearest_neighbors, SphereError};
use qsc_render::zorder::{z_order_decode, z_order_encode};

#[test]
fn z_order_encode_interleaves_bits() {
    assert_eq!(z_order_encode(0, 0), 0);
    assert_eq!(z_order_encode(1, 0), 1);
    assert_eq!(z_order_encode(0, 1), 2);
    assert_eq!(z_order_encode(1, 1), 3);
    assert_eq!(z_order_encode(2, 0), 4);
    assert_eq!(z_order_encode(3, 5), 0b100111);
    assert_eq!(z_order_encode(u32::MAX, 0), 0x5555_5555_5555_5555);
    assert_eq!(z_order_encode(0, u32::MAX), 0xaaaa_aaaa_aaaa_aaaa);
}

#[test]
fn z_order_decode_gathers_bits() {
    assert_eq!(z_order_decode(0), (0, 0));
    assert_eq!(z_order_decode(0b100111), (3, 5));
    assert_eq!(z_order_decode(usize::MAX), (u32::MAX, u32::MAX));
}

#[test]
fn z_order_round_trips() {
    for x in 0..40u32 {
        for y in 0..40u32 {
            assert_eq!(z_order_decode(z_order_encode(x, y)), (x, y));
        }
    }
    for z in 0..2000usize {
        let (x, y) = z_order_decode(z);
        assert_eq!(z_order_encode(x, y), z);
    }
}

#[test]
fn neighbors_refuse_huge_subdivisions() {
    assert!(matches!(
        find_nearest_neighbors(0, usize::BITS),
        Err(SphereError::SubdivisionBeyondWordSize)
    ));
}

#[test]
fn neighbors_inside_a_face() {
    // subdivision 2: faces are 4 by 4 grids, 16 vertices each
    let v = 16 + z_order_encode(1, 2);
    let n = find_nearest_neighbors(v, 2).unwrap();
    assert_eq!(
        n,
        [16 + z_order_encode(2, 2), 16 + z_order_encode(1, 3), 16 + z_order_encode(0, 2), 16 + z_order_encode(1, 1)]
    );
}

#[test]
fn neighbors_of_the_poles() {
    let s = 2;
    let north = 6 * 16;
    let n = find_nearest_neighbors(north, s).unwrap();
    assert_eq!(n, [north + 2, z_order_encode(0, 3), 3 * 16 + z_order_encode(3, 3), 4 * 16 + z_order_encode(0, 3)]);
    let south = 6 * 16 + 1;
    let n = find_nearest_neighbors(south, s).unwrap();
    assert_eq!(n, [16, 2 * 16 + z_order_encode(3, 0), 5 * 16 + z_order_encode(3, 3), 16]);
}

#[test]
fn neighbors_stay_on_the_sphere() {
    for s in 1..5u32 {
        let count = 6 * (1usize << (2 * s)) + 2;
        for v in 0..count {
            for n in find_nearest_neighbors(v, s).unwrap() {
                assert!(n <= count, "vertex {} of subdivision {} has neighbour {}", v, s, n);
            }
        }
    }
}

#[test]
fn sphere_refuses_bad_subdivisions() {
    assert!(matches!(Sphere::new(0), Err(SphereError::ZeroSubdivisions)));
    assert!(matches!(Sphere::new(16), Err(SphereError::TooManySubdivisions)));
}

#[test]
fn sphere_sizes() {
    for s in 1..6u32 {
        let sphere = Sphere::new(s).unwrap();
        let face = 1usize << (2 * s);
        assert_eq!(sphere.vertex_count, 6 * face + 2);
        assert_eq!(sphere.indices.len(), 36 * face);
    }
}

#[test]
fn sphere_indices_are_vertices() {
    for s in 1..7u32 {
        let sphere = Sphere::new(s).unwrap();
        for &i in sphere.indices.iter() {
            assert!((i as usize) < sphere.vertex_count);
        }
    }
}

#[test]
fn every_vertex_is_used() {
    for s in 1..6u32 {
        let sphere = Sphere::new(s).unwrap();
        let mut used = vec![false; sphere.vertex_count];
        for &i in sphere.indices.iter() {
            used[i as usize] = true;
        }
        assert!(used.iter().all(|&u| u));
    }
}

#[test]
fn first_cell_of_face_0() {
    let sphere = Sphere::new(1).unwrap();
    // face 0 of subdivision 1: vertices 0 (0,0), 1 (1,0), 2 (0,1), 3 (1,1)
    assert_eq!(&sphere.indices[0..6], &[0, 1, 2, 2, 1, 3]);
}

#[test]
fn make_sphere_indices_leaves_the_tail_alone() {
    let mut ind = vec![7u32; 36 * 4 + 3];
    make_sphere_indices(&mut ind, 1);
    assert_eq!(&ind[36 * 4..], &[7, 7, 7]);
    let sphere = Sphere::new(1).unwrap();
    assert_eq!(&ind[..36 * 4], &sphere.indices[..]);
}

#[test]
fn poles_are_indexed() {
    for s in 1..5u32 {
        let sphere = Sphere::new(s).unwrap();
        let north = (sphere.vertex_count - 2) as u32;
        let south = (sphere.vertex_count - 1) as u32;
        assert!(sphere.indices.contains(&north));
        assert!(sphere.indices.contains(&south));
    }
}

#[test]
fn neighbors_read_the_face_bits_of_the_index() {
    // subdivision 2: the face bits sit above the four bits of the index within a face
    let s = 2;
    let inner = z_order_encode(1, 2);
    assert_eq!(find_nearest_neighbors(8 * 16 + inner, s).unwrap(), find_nearest_neighbors(inner, s).unwrap());
    assert_eq!(
        find_nearest_neighbors(8 * 16 + 3 * 16 + inner, s).unwrap(),
        find_nearest_neighbors(3 * 16 + inner, s).unwrap()
    );
    assert_eq!(find_nearest_neighbors(8 * 16 + 6 * 16, s).unwrap(), find_nearest_neighbors(6 * 16, s).unwrap());
    assert_eq!(find_nearest_neighbors(16 * 16 + 6 * 16 + 1, s).unwrap(), find_nearest_neighbors(6 * 16 + 1, s).unwrap());
}

#[test]
fn z_order_codes_of_a_grid_fill_its_square() {
    for k in 0..6u32 {
        let side = 1u32 << k;
        let mut seen = vec![false; (side * side) as usize];
        for x in 0..side {
            for y in 0..side {
                let z = z_order_encode(x, y);
                assert!(z < (side * side) as usize);
                seen[z] = true;
            }
        }
        assert!(seen.iter().all(|&s| s));
        assert!(z_order_encode(side, 0) >= (side * side) as usize);
        assert!(z_order_encode(0, side) >= (side * side) as usize);
    }
}

#[test]
fn face_vertices_sit_above_their_face_number() {
    assert_eq!(face_vertex_index(0, 0, 0, 2), 0);
    assert_eq!(face_vertex_index(3, 1, 2, 2), 3 * 16 + z_order_encode(1, 2));
    assert_eq!(face_vertex_index(5, 3, 3, 2), 5 * 16 + 15);
    assert_eq!(face_vertex_index(1, 0, 1, 9), (1 << 18) + 2);
}

#[test]
fn faces_are_tinted_in_pairs() {
    assert_eq!(face_rgba(0), [170, 0, 0, 0]);
    assert_eq!(face_rgba(1), [170, 0, 0, 0]);
    assert_eq!(face_rgba(2), [0, 170, 0, 0]);
    assert_eq!(face_rgba(3), [0, 170, 0, 0]);
    assert_eq!(face_rgba(4), [0, 0, 170, 0]);
    assert_eq!(face_rgba(5), [0, 0, 170, 0]);
    assert_eq!(face_rgba(6), [0, 0, 0, 0]);
}

#[test]
fn z_order_codes_are_monotone() {
    for x1 in 0..12u32 {
        for y1 in 0..12u32 {
            for x2 in x1..12u32 {
                for y2 in y1..12u32 {
                    assert!(z_order_encode(x1, y1) <= z_order_encode(x2, y2));
                }
            }
        }
    }
}

#[test]
fn interior_neighbors_are_symmetric() {
    let s = 3;
    let m = 7;
    for f in 0..6usize {
        for x in 1..m {
            for y in 1..m {
                let v = f * 64 + z_order_encode(x, y);
                let n = find_nearest_neighbors(v, s).unwrap();
                assert_eq!(find_nearest_neighbors(n[0], s).unwrap()[2], v);
                assert_eq!(find_nearest_neighbors(n[1], s).unwrap()[3], v);
                assert_eq!(find_nearest_neighbors(n[2], s).unwrap()[0], v);
                assert_eq!(find_nearest_neighbors(n[3], s).unwrap()[1], v);
            }
        }
    }
}
