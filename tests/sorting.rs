use pxsort::extractor::{brightness, chroma, hue, intensity, luma, saturation};
use pxsort::sort::{
    join_blocks, line_rng, line_step, pass_seed, plan_pass, sort, sort_line, step_from_base,
    write_line,
};
use pxsort::{
    into_animate_params, no_negative_values, AnimateParams, ArgumentError, ArgumentList,
    ColorChannel, Coefficients, Image, Pixel, PixelSort, SortError, SortOptions, SortingAlgorithm,
    WalkPath,
};

fn px(red: u8, green: u8, blue: u8) -> Pixel {
    Pixel { red, green, blue }
}

fn gray(v: u8) -> Pixel {
    px(v, v, v)
}

fn options(by: SortingAlgorithm, interval: usize, discretize: u64) -> SortOptions {
    SortOptions {
        by,
        interval,
        reverse: false,
        coefficients: Coefficients::for_algorithm(None, by),
        discretize,
        progressive_amount: None,
        direction: WalkPath::Horizontal,
        splice: None,
        edge_threshold: None,
        image_threshold: None,
        image_mask: None,
        channel: None,
        animate: None,
        shuffle: false,
        seed: Some(7),
    }
}

fn image(width: u32, height: u32, pixels: Vec<Pixel>) -> Image {
    Image::new(width, height, pixels).unwrap()
}

fn sorted_counts(pixels: &[Pixel]) -> Vec<(u8, u8, u8)> {
    let mut v: Vec<(u8, u8, u8)> = pixels.iter().map(|p| (p.red, p.green, p.blue)).collect();
    v.sort();
    v
}

fn noise(width: u32, height: u32) -> Vec<Pixel> {
    let mut state: u32 = 12345;
    let mut out = Vec::new();
    for _ in 0..(width * height) {
        state = state.wrapping_mul(1103515245).wrapping_add(12345);
        let r = (state >> 16) as u8;
        let g = (state >> 8) as u8;
        let b = (state >> 24) as u8;
        out.push(px(r, g, b));
    }
    out
}

#[test]
fn example_two_by_two_already_sorted() {
    let pixels = vec![gray(10), gray(50), gray(0), gray(90)];
    let mut img = image(2, 2, pixels.clone());
    assert_eq!(sort(&mut img, &options(SortingAlgorithm::Luma, 1, 1)), Ok(()));
    assert_eq!(img.pixels(), &pixels);
    let mut img = image(2, 2, pixels.clone());
    assert_eq!(sort(&mut img, &options(SortingAlgorithm::Luma, 1, 2)), Ok(()));
    assert_eq!(img.pixels(), &pixels);
}

#[test]
fn rows_are_sorted_ascending_by_luma() {
    let mut img = image(3, 2, vec![gray(30), gray(10), gray(20), gray(9), gray(8), gray(7)]);
    let mut opts = options(SortingAlgorithm::Luma, 3, 3);
    opts.progressive_amount = Some(5);
    assert_eq!(sort(&mut img, &opts), Ok(()));
    assert_eq!(img.pixels(), &vec![gray(10), gray(20), gray(30), gray(7), gray(8), gray(9)]);
}

#[test]
fn reverse_sorts_descending() {
    let mut img = image(4, 1, vec![gray(1), gray(3), gray(2), gray(4)]);
    let mut opts = options(SortingAlgorithm::Intensity, 4, 4);
    opts.progressive_amount = Some(9);
    opts.reverse = true;
    assert_eq!(sort(&mut img, &opts), Ok(()));
    assert_eq!(img.pixels(), &vec![gray(4), gray(3), gray(2), gray(1)]);
}

#[test]
fn vertical_sorts_columns() {
    let mut img = image(2, 3, vec![gray(5), gray(1), gray(4), gray(2), gray(3), gray(0)]);
    let mut opts = options(SortingAlgorithm::Brightness, 3, 3);
    opts.progressive_amount = Some(3);
    opts.direction = WalkPath::Vertical;
    assert_eq!(sort(&mut img, &opts), Ok(()));
    assert_eq!(img.pixels(), &vec![gray(3), gray(0), gray(4), gray(1), gray(5), gray(2)]);
}

#[test]
fn boundary_clamp_last_block_element_wins() {
    let mut img = image(4, 1, vec![gray(40), gray(30), gray(20), gray(10)]);
    let mut opts = options(SortingAlgorithm::Luma, 2, 3);
    opts.progressive_amount = Some(1);
    assert_eq!(sort(&mut img, &opts), Ok(()));
    // windows [0, 3) and [2, 5) -> [20, 10, 10] sorted [10, 10, 20]; the
    // three writes past index 3 clamp to it, so the last one stays
    assert_eq!(img.pixels(), &vec![gray(20), gray(30), gray(40), gray(20)]);
}

#[test]
fn concentric_fails_without_touching_the_image() {
    let pixels = vec![gray(3), gray(2), gray(1), gray(0)];
    let mut img = image(2, 2, pixels.clone());
    let mut opts = options(SortingAlgorithm::Luma, 2, 2);
    opts.direction = WalkPath::Concentric;
    assert_eq!(sort(&mut img, &opts), Err(SortError::UnsupportedTraversal));
    assert_eq!(img.pixels(), &pixels);
    opts.direction = WalkPath::Diagonal;
    assert_eq!(img.sort_rgb8_pixels(opts), Err(SortError::UnsupportedTraversal));
    assert_eq!(img.pixels(), &pixels);
}

#[test]
fn zero_interval_is_a_configuration_error() {
    let pixels = vec![gray(3), gray(2)];
    let mut img = image(2, 1, pixels.clone());
    assert_eq!(
        sort(&mut img, &options(SortingAlgorithm::Luma, 0, 2)),
        Err(SortError::ConfigurationError)
    );
    assert_eq!(img.pixels(), &pixels);
}

#[test]
fn channel_with_hue_is_a_configuration_error() {
    let mut img = image(2, 1, vec![gray(3), gray(2)]);
    let mut opts = options(SortingAlgorithm::Hue, 2, 2);
    opts.channel = Some(ColorChannel::Red);
    assert_eq!(sort(&mut img, &opts), Err(SortError::ConfigurationError));
    assert!(SortingAlgorithm::Saturation
        .into_rgb_sorter(Coefficients::saturation(), Some(ColorChannel::Blue))
        .is_none());
    assert!(SortingAlgorithm::Luma
        .into_rgb_sorter(Coefficients::luma(), Some(ColorChannel::Blue))
        .is_some());
}

#[test]
fn channel_isolation_orders_by_one_channel() {
    let mut img = image(2, 1, vec![px(200, 0, 10), px(0, 255, 5)]);
    let mut opts = options(SortingAlgorithm::Chroma, 2, 2);
    opts.progressive_amount = Some(4);
    opts.channel = Some(ColorChannel::Blue);
    assert_eq!(sort(&mut img, &opts), Ok(()));
    assert_eq!(img.pixels(), &vec![px(0, 255, 5), px(200, 0, 10)]);
    let sorter = SortingAlgorithm::Luma
        .into_rgb_sorter(Coefficients::luma(), Some(ColorChannel::Red))
        .unwrap();
    assert_eq!(sorter.key(&px(100, 200, 50)), 21);
}

#[test]
fn tiling_windows_only_permute_pixels() {
    for (shuffle, reverse) in [(false, false), (false, true), (true, false)] {
        let pixels = noise(6, 4);
        let mut img = image(6, 4, pixels.clone());
        let mut opts = options(SortingAlgorithm::Hue, 3, 3);
        opts.progressive_amount = Some(2);
        opts.shuffle = shuffle;
        opts.reverse = reverse;
        assert_eq!(sort(&mut img, &opts), Ok(()));
        assert_eq!(sorted_counts(img.pixels()), sorted_counts(&pixels));
    }
    let pixels = noise(5, 3);
    let mut img = image(5, 3, pixels.clone());
    let mut opts = options(SortingAlgorithm::Saturation, 1, 1);
    opts.direction = WalkPath::Vertical;
    assert_eq!(sort(&mut img, &opts), Ok(()));
    assert_eq!(img.pixels(), &pixels);
}

#[test]
fn descending_then_reversed_gives_ascending_keys() {
    let pixels = noise(9, 1);
    let mut asc = image(9, 1, pixels.clone());
    let mut opts = options(SortingAlgorithm::Intensity, 9, 9);
    opts.progressive_amount = Some(9);
    assert_eq!(sort(&mut asc, &opts), Ok(()));
    let mut desc = image(9, 1, asc.pixels().clone());
    opts.reverse = true;
    assert_eq!(sort(&mut desc, &opts), Ok(()));
    let sorter = opts.by.into_rgb_sorter(opts.coefficients, None).unwrap();
    let asc_keys: Vec<u8> = asc.pixels().iter().map(|p| sorter.key(p)).collect();
    let mut back_keys: Vec<u8> = desc.pixels().iter().map(|p| sorter.key(p)).collect();
    back_keys.reverse();
    assert_eq!(asc_keys, back_keys);
    let mut expected = asc_keys.clone();
    expected.sort();
    assert_eq!(asc_keys, expected);
}

#[test]
fn same_seed_gives_identical_output() {
    let pixels = noise(16, 8);
    let mut opts = options(SortingAlgorithm::Luma, 5, 4);
    opts.shuffle = true;
    opts.seed = Some(42);
    let mut first = image(16, 8, pixels.clone());
    let mut second = image(16, 8, pixels.clone());
    assert_eq!(sort(&mut first, &opts), Ok(()));
    assert_eq!(sort(&mut second, &opts), Ok(()));
    assert_eq!(first.pixels(), second.pixels());
    opts.shuffle = false;
    let mut third = image(16, 8, pixels.clone());
    let mut fourth = image(16, 8, pixels);
    assert_eq!(sort(&mut third, &opts), Ok(()));
    assert_eq!(sort(&mut fourth, &opts), Ok(()));
    assert_eq!(third.pixels(), fourth.pixels());
}

#[test]
fn score_functions_exact_values() {
    let o = options(SortingAlgorithm::Luma, 1, 1);
    assert_eq!(luma(&gray(10), &o), 10);
    assert_eq!(luma(&gray(255), &o), 255);
    assert_eq!(luma(&px(100, 0, 0), &o), 21);
    let z = options(SortingAlgorithm::Brightness, 1, 1);
    assert_eq!(brightness(&gray(200), &z), 72);
    assert_eq!(brightness(&px(10, 20, 30), &z), 20);
    assert_eq!(chroma(&px(10, 200, 50), &z), 190);
    assert_eq!(saturation(&px(10, 200, 50), &z), 0);
    assert_eq!(saturation(&px(0, 0, 0), &z), 0);
    assert_eq!(saturation(&px(0, 0, 9), &z), 1);
    assert_eq!(intensity(&gray(255), &z), 255);
    assert_eq!(intensity(&px(1, 2, 3), &z), 2);
    let h = options(SortingAlgorithm::Hue, 1, 1);
    assert_eq!(hue(&px(255, 0, 0), &h), 0);
    assert_eq!(hue(&px(0, 255, 0), &h), 120);
    assert_eq!(hue(&px(0, 0, 255), &h), 240);
    assert_eq!(hue(&px(255, 0, 255), &h), 255);
    assert_eq!(hue(&px(255, 255, 0), &h), 60);
    assert_eq!(hue(&gray(77), &h), 0);
}

#[test]
fn coefficients_prescale_channels() {
    let mut o = options(SortingAlgorithm::Brightness, 1, 1);
    o.coefficients = Coefficients { red: 5000, green: 0, blue: 0 };
    assert_eq!(brightness(&px(200, 0, 0), &o), 50);
    o.coefficients = Coefficients { red: 30000, green: 0, blue: 0 };
    assert_eq!(chroma(&px(200, 0, 0), &o), 255);
    o.coefficients = Coefficients { red: -10000, green: 0, blue: 0 };
    assert_eq!(chroma(&px(200, 10, 0), &o), 10);
}

#[test]
fn brightness_wraps_at_256() {
    let o = options(SortingAlgorithm::Brightness, 1, 1);
    assert_eq!(brightness(&px(255, 1, 1), &o), 0);
    assert_eq!(brightness(&px(255, 0, 0), &o), 127);
}

#[test]
fn default_coefficients() {
    assert_eq!(Coefficients::luma(), Coefficients { red: 2126, green: 7152, blue: 722 });
    assert_eq!(Coefficients::hue(), Coefficients { red: 0, green: 20000, blue: 40000 });
    assert_eq!(Coefficients::default(), Coefficients { red: 0, green: 0, blue: 0 });
    let given = Coefficients { red: 1, green: 2, blue: 3 };
    assert_eq!(Coefficients::for_algorithm(Some(given), SortingAlgorithm::Luma), given);
    assert_eq!(
        Coefficients::for_algorithm(None, SortingAlgorithm::Chroma),
        Coefficients::chroma()
    );
}

#[test]
fn interval_text() {
    assert_eq!(no_negative_values("5"), Ok(5));
    assert_eq!(no_negative_values("+7"), Ok(7));
    assert_eq!(no_negative_values("0"), Err(ArgumentError::ZeroInterval));
    assert_eq!(no_negative_values("abc"), Err(ArgumentError::InvalidNumber));
    assert_eq!(no_negative_values(""), Err(ArgumentError::InvalidNumber));
    assert_eq!(no_negative_values("-1"), Err(ArgumentError::InvalidNumber));
    assert_eq!(
        no_negative_values("99999999999999999999999"),
        Err(ArgumentError::InvalidNumber)
    );
}

#[test]
fn animate_params_text() {
    let expected =
        AnimateParams { param: ArgumentList::Interval, start: 1, stop: 10, step: 2 };
    assert_eq!(into_animate_params("interval 1 10 2"), Ok(expected));
    assert_eq!(into_animate_params("  INTERVAL\t1  10 2 extra"), Ok(expected));
    assert_eq!(
        into_animate_params("image_mask 0 5 1").map(|a| a.param),
        Ok(ArgumentList::ImageMask)
    );
    assert_eq!(into_animate_params("speed 1 2 3"), Err(ArgumentError::UnknownParameter));
    assert_eq!(into_animate_params(""), Err(ArgumentError::MissingParameter));
    assert_eq!(into_animate_params("interval"), Err(ArgumentError::MissingStart));
    assert_eq!(into_animate_params("interval 1"), Err(ArgumentError::MissingStop));
    assert_eq!(into_animate_params("interval 1 2"), Err(ArgumentError::MissingStep));
    assert_eq!(into_animate_params("interval 1 x 2"), Err(ArgumentError::InvalidNumber));
    assert_eq!(ArgumentList::from_name("Channel"), Ok(ArgumentList::Channel));
    assert_eq!(ArgumentList::from_lowercase("Channel"), None);
}

#[test]
fn walk_path_names() {
    assert_eq!(WalkPath::Horizontal.name(), "horizontal");
    assert_eq!(WalkPath::Vertical.name(), "vertical");
    assert_eq!(WalkPath::Concentric.name(), "concentric");
}

#[test]
fn image_size_must_match() {
    assert!(Image::new(2, 2, vec![gray(0); 3]).is_none());
    let img = image(3, 2, vec![gray(1); 6]);
    assert_eq!(img.dimensions(), (3, 2));
    assert_eq!(img.get_pixel(2, 1), gray(1));
}

#[test]
fn empty_image_sorts() {
    let mut img = image(0, 3, vec![]);
    assert_eq!(sort(&mut img, &options(SortingAlgorithm::Luma, 2, 2)), Ok(()));
    assert!(img.pixels().is_empty());
}

#[test]
fn lines_written_in_any_order_match_the_pass() {
    for direction in [WalkPath::Horizontal, WalkPath::Vertical] {
        let pixels = noise(7, 5);
        let mut opts = options(SortingAlgorithm::Chroma, 4, 3);
        opts.direction = direction;
        opts.seed = Some(99);
        let mut whole = image(7, 5, pixels.clone());
        assert_eq!(sort(&mut whole, &opts), Ok(()));

        let mut by_lines = image(7, 5, pixels.clone());
        let plan = match plan_pass(&opts, 7, 5) {
            Ok(plan) => plan,
            Err(e) => panic!("plan failed: {:?}", e),
        };
        let mut lines = Vec::new();
        for outer in (0..plan.outer_limit).rev() {
            let mut rng = line_rng(99, outer);
            let step =
                line_step(&plan.candidates, opts.interval, opts.progressive_amount, outer, &mut rng);
            assert!(step >= 1 && step <= opts.interval);
            let blocks = sort_line(&by_lines, &opts, &plan.sorter, outer, step, &mut rng);
            lines.push((outer, join_blocks(&blocks)));
        }
        for (outer, line) in lines {
            write_line(&mut by_lines, direction, outer, &line);
        }
        assert_eq!(whole.pixels(), by_lines.pixels());
    }
}

#[test]
fn plan_rejects_bad_options() {
    let mut opts = options(SortingAlgorithm::Luma, 0, 1);
    assert!(matches!(plan_pass(&opts, 3, 3), Err(SortError::ConfigurationError)));
    opts.interval = 2;
    opts.direction = WalkPath::Diagonal;
    assert!(matches!(plan_pass(&opts, 3, 3), Err(SortError::UnsupportedTraversal)));
    opts.direction = WalkPath::Vertical;
    match plan_pass(&opts, 4, 3) {
        Ok(plan) => {
            assert_eq!(plan.outer_limit, 4);
            assert_eq!(plan.candidates, vec![1, 2]);
        }
        Err(e) => panic!("plan failed: {:?}", e),
    }
}

#[test]
fn step_from_drawn_base() {
    assert_eq!(step_from_base(3, 5, None, 7), 3);
    assert_eq!(step_from_base(1, 10, Some(2), 3), 6);
    assert_eq!(step_from_base(4, 10, Some(2), 3), 9);
    assert_eq!(step_from_base(4, 10, Some(2), 4), 10);
    assert_eq!(step_from_base(1, 1, Some(u64::MAX), u32::MAX), 1);
}

#[test]
fn unsupported_direction_is_reported_before_configuration() {
    let pixels = vec![gray(3), gray(2)];
    let mut img = image(2, 1, pixels.clone());
    let mut opts = options(SortingAlgorithm::Hue, 0, 2);
    opts.channel = Some(ColorChannel::Green);
    opts.direction = WalkPath::Concentric;
    assert_eq!(sort(&mut img, &opts), Err(SortError::UnsupportedTraversal));
    assert_eq!(img.pixels(), &pixels);
}

#[test]
fn boundary_clamp_with_step_one() {
    for reverse in [false, true] {
        let mut img = image(4, 1, vec![gray(50), gray(70), gray(60), gray(5)]);
        let mut opts = options(SortingAlgorithm::Luma, 1, 3);
        opts.reverse = reverse;
        assert_eq!(sort(&mut img, &opts), Ok(()));
        let expected = if reverse {
            vec![gray(70), gray(60), gray(50), gray(5)]
        } else {
            vec![gray(50), gray(60), gray(70), gray(5)]
        };
        assert_eq!(img.pixels(), &expected);
    }
}

#[test]
fn shuffled_pass_ignores_key_and_reverse() {
    let pixels = noise(9, 6);
    let mut first_opts = options(SortingAlgorithm::Luma, 4, 3);
    first_opts.shuffle = true;
    first_opts.seed = Some(5);
    let mut second_opts = options(SortingAlgorithm::Hue, 4, 3);
    second_opts.shuffle = true;
    second_opts.seed = Some(5);
    second_opts.reverse = true;
    let mut first = image(9, 6, pixels.clone());
    let mut second = image(9, 6, pixels);
    assert_eq!(sort(&mut first, &first_opts), Ok(()));
    assert_eq!(sort(&mut second, &second_opts), Ok(()));
    assert_eq!(first.pixels(), second.pixels());
}

#[test]
fn unseeded_pass_draws_a_seed() {
    assert_eq!(pass_seed(Some(17)), Some(17));
    let pixels = noise(6, 3);
    let mut img = image(6, 3, pixels.clone());
    let mut opts = options(SortingAlgorithm::Luma, 3, 3);
    opts.progressive_amount = Some(2);
    opts.seed = None;
    opts.shuffle = true;
    assert_eq!(sort(&mut img, &opts), Ok(()));
    assert_eq!(sorted_counts(img.pixels()), sorted_counts(&pixels));
}
