use raycaster::framebuffer::Framebuffer;
use raycaster::map::GameMap;
use raycaster::projector::{tile_px_dimensions, ViewSplit};
use raycaster::raycast::{cast_ray, cast_rays, Sample};
use raycaster::render::{render_frame, Marker, BACKGROUND_COLOR, WALL_COLOR};

const STEP: f32 = 0.05;

fn at(cell_x: i64, cell_y: i64) -> Sample {
    Sample { cell_x, cell_y, pixel_x: 0, pixel_y: 0, wall_height: 0 }
}

struct Viewer {
    x: f32,
    y: f32,
    angle: f32,
}

/// The points of one ray, and for each the distance at which it lies.
fn march(
    viewer: &Viewer,
    ray_angle: f32,
    max_distance: f32,
    tile: (usize, usize),
    canvas_height: usize,
) -> (Vec<Sample>, Vec<f32>) {
    let mut samples = Vec::new();
    let mut distances = Vec::new();
    let mut t: f32 = 0.0;
    while t < max_distance {
        let x = viewer.x + t * ray_angle.cos();
        let y = viewer.y + t * ray_angle.sin();
        let height = canvas_height as f32 / (t * (ray_angle - viewer.angle).cos());
        samples.push(Sample {
            cell_x: x.floor() as i64,
            cell_y: y.floor() as i64,
            pixel_x: (x * tile.0 as f32) as usize,
            pixel_y: (y * tile.1 as f32) as usize,
            wall_height: height as usize,
        });
        distances.push(t);
        t += STEP;
    }
    (samples, distances)
}

/// The rays of a scan of `columns` columns over the field of view.
fn scan(
    viewer: &Viewer,
    fov: f32,
    columns: usize,
    max_distance: f32,
    tile: (usize, usize),
    canvas_height: usize,
) -> (Vec<Vec<Sample>>, Vec<Vec<f32>>) {
    let mut rays = Vec::new();
    let mut distances = Vec::new();
    for i in 0..columns {
        let ray_angle = viewer.angle - fov / 2.0 + fov * i as f32 / columns as f32;
        let (samples, ts) = march(viewer, ray_angle, max_distance, tile, canvas_height);
        rays.push(samples);
        distances.push(ts);
    }
    (rays, distances)
}

#[test]
fn ray_stops_at_the_first_wall() {
    let map = GameMap::new("4\n1\n__#_\n").unwrap();
    let ray = vec![at(0, 0), at(1, 0), at(2, 0), at(3, 0), at(2, 0)];
    assert_eq!(cast_ray(&map, &ray), Some(2));
}

#[test]
fn ray_that_starts_in_a_wall_stops_at_once() {
    let map = GameMap::new("2\n1\n#_\n").unwrap();
    assert_eq!(cast_ray(&map, &vec![at(0, 0), at(1, 0)]), Some(0));
}

#[test]
fn ray_stops_where_it_leaves_the_map() {
    let map = GameMap::new("2\n2\n__\n__\n").unwrap();
    assert_eq!(cast_ray(&map, &vec![at(0, 0), at(1, 0), at(2, 0)]), Some(2));
    assert_eq!(cast_ray(&map, &vec![at(0, 0), at(0, 1), at(0, 2)]), Some(2));
    assert_eq!(cast_ray(&map, &vec![at(1, 1), at(0, 0), at(-1, 0)]), Some(2));
    assert_eq!(cast_ray(&map, &vec![at(1, 1), at(1, -1), at(1, 0)]), Some(1));
    assert_eq!(cast_ray(&map, &vec![at(i64::MIN, i64::MAX)]), Some(0));
}

#[test]
fn ray_that_runs_out_stops_nowhere() {
    let map = GameMap::new("2\n2\n__\n_#\n").unwrap();
    assert_eq!(cast_ray(&map, &vec![at(0, 0), at(1, 0), at(0, 1)]), None);
    assert_eq!(cast_ray(&map, &Vec::new()), None);
}

#[test]
fn scan_casts_every_ray() {
    let map = GameMap::new("3\n1\n__#\n").unwrap();
    let rays = vec![
        vec![at(0, 0), at(1, 0), at(2, 0)],
        vec![at(0, 0), at(1, 0)],
        vec![],
        vec![at(2, 0)],
        vec![at(1, 0), at(1, 1)],
    ];
    assert_eq!(cast_rays(&map, &rays), vec![Some(2), None, None, Some(0), Some(1)]);
    assert_eq!(cast_rays(&map, &Vec::new()), Vec::<Option<usize>>::new());
}

#[test]
fn scan_made_twice_finds_the_same() {
    let map = GameMap::new("5\n5\n#####\n#___#\n#_#_#\n#___#\n#####\n").unwrap();
    let viewer = Viewer { x: 1.5, y: 1.5, angle: 0.7 };
    let (rays, distances) = scan(&viewer, std::f32::consts::PI / 3.0, 64, 20.0, (4, 4), 64);
    let first = cast_rays(&map, &rays);
    let second = cast_rays(&map, &rays);
    assert_eq!(first, second);
    assert_eq!(first.len(), 64);
    let perpendicular = |hits: &Vec<Option<usize>>| -> Vec<Option<u32>> {
        hits.iter()
            .enumerate()
            .map(|(i, hit)| {
                hit.map(|k| {
                    let ray_angle = viewer.angle - std::f32::consts::PI / 6.0
                        + std::f32::consts::PI / 3.0 * i as f32 / 64.0;
                    (distances[i][k] * (ray_angle - viewer.angle).cos()).to_bits()
                })
            })
            .collect()
    };
    assert_eq!(perpendicular(&first), perpendicular(&second));
    assert!(first.iter().all(|hit| hit.is_some()));
}

#[test]
fn rays_from_the_middle_of_a_room_hit_its_walls() {
    let map = GameMap::new("3\n3\n###\n#_#\n###\n").unwrap();
    let viewer = Viewer { x: 1.5, y: 1.5, angle: 0.0 };
    let (rays, distances) = scan(&viewer, std::f32::consts::PI / 3.0, 2, 20.0, (1, 1), 16);
    let hits = cast_rays(&map, &rays);
    assert_eq!(hits.len(), 2);
    for (i, hit) in hits.iter().enumerate() {
        let k = hit.expect("the ray hits a wall");
        assert!((distances[i][k] - 0.5).abs() <= 10.0 * STEP);
        assert!(k >= 1);
        assert!(!map.is_blocking(rays[i][k - 1].cell_x, rays[i][k - 1].cell_y));
        assert!(map.is_blocking(rays[i][k].cell_x, rays[i][k].cell_y));
    }
    let straight = hits[1].unwrap();
    assert!((distances[1][straight] - 0.5).abs() <= STEP);
    assert_eq!((rays[1][straight].cell_x, rays[1][straight].cell_y), (2, 1));
}

#[test]
fn rays_that_end_before_a_wall_report_no_hit() {
    let map = GameMap::new("4\n4\n____\n____\n____\n____\n").unwrap();
    let viewer = Viewer { x: 2.0, y: 2.0, angle: 0.0 };
    let tile = tile_px_dimensions(16, 8, 4, 4, ViewSplit::Half);
    let (rays, _) = scan(&viewer, std::f32::consts::PI / 3.0, 8, 1.0, tile, 8);
    assert_eq!(rays.len(), 8);
    for ray in rays.iter() {
        assert!(ray.len() >= 20);
        assert_eq!(cast_ray(&map, ray), None);
    }
    assert_eq!(cast_rays(&map, &rays), vec![None; 8]);

    let mut buffer = Framebuffer::new(16, 8, 0).unwrap();
    render_frame(&mut buffer, &map, &Marker { x: 4, y: 4, size: 1 }, &rays);
    for y in 0..8 {
        for x in 8..16 {
            assert_eq!(buffer.pixel(x, y), Some(BACKGROUND_COLOR));
        }
    }
    assert!(buffer.pixels().iter().all(|&pixel| pixel != WALL_COLOR));
}

#[test]
fn rays_in_every_direction_come_to_an_end() {
    let map = GameMap::new("4\n4\n____\n____\n____\n____\n").unwrap();
    let viewer = Viewer { x: 2.0, y: 2.0, angle: 0.0 };
    let (rays, distances) = scan(&viewer, 2.0 * std::f32::consts::PI, 16, 20.0, (1, 1), 8);
    for (i, hit) in cast_rays(&map, &rays).iter().enumerate() {
        let k = hit.expect("the ray leaves the map");
        assert!(distances[i][k] >= 2.0 - STEP);
        assert!(distances[i][k] <= 2.0 * 2.0_f32.sqrt() + STEP);
    }
}
