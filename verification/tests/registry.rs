use kepler_kernel::registry::{find_kernel, kernel_name, registrations, Registration, Width};

#[test]
fn each_width_has_its_name() {
    assert_eq!(kernel_name(Width::Single), "cpu_kepler_f32");
    assert_eq!(kernel_name(Width::Double), "cpu_kepler_f64");
}

#[test]
fn the_registry_holds_both_kernels() {
    assert_eq!(
        registrations(),
        vec![
            Registration { name: "cpu_kepler_f32", width: Width::Single },
            Registration { name: "cpu_kepler_f64", width: Width::Double },
        ]
    );
}

#[test]
fn a_kernel_is_found_under_its_name() {
    assert_eq!(find_kernel("cpu_kepler_f32"), Some(Width::Single));
    assert_eq!(find_kernel("cpu_kepler_f64"), Some(Width::Double));
    for entry in registrations() {
        assert_eq!(find_kernel(entry.name), Some(entry.width));
    }
}

#[test]
fn other_names_find_nothing() {
    assert_eq!(find_kernel(""), None);
    assert_eq!(find_kernel("cpu_kepler"), None);
    assert_eq!(find_kernel("cpu_kepler_f16"), None);
    assert_eq!(find_kernel("cpu_kepler_f640"), None);
    assert_eq!(find_kernel("CPU_KEPLER_F64"), None);
    assert_eq!(find_kernel("cpu_kepler_f\u{e9}4"), None);
}
