use liboverlay::path::{is_relative, join, parent, strip_prefix};
use std::path::Path;

/// Paths made of up to `depth` pieces from a small alphabet, each with and
/// without a leading separator.
fn samples(depth: usize) -> Vec<String> {
    let pieces = ["", ".", "..", "a", "bc", ".x", "a.b"];
    let mut bodies: Vec<String> = vec![String::new()];
    let mut layer: Vec<String> = vec![String::new()];
    for _ in 0..depth {
        let mut next: Vec<String> = Vec::new();
        for body in &layer {
            for piece in pieces.iter() {
                let mut longer = body.clone();
                if !body.is_empty() || layer.len() > 1 {
                    longer.push('/');
                }
                longer.push_str(piece);
                next.push(longer);
            }
        }
        bodies.extend(next.iter().cloned());
        layer = next;
    }
    let mut all: Vec<String> = Vec::new();
    for body in bodies {
        all.push(format!("/{}", body));
        all.push(body);
    }
    all.sort();
    all.dedup();
    all
}

fn bytes_of_path(path: &Path) -> Vec<u8> {
    path.to_str().unwrap().as_bytes().to_vec()
}

#[test]
fn is_relative_agrees_with_std() {
    for path in samples(3) {
        assert_eq!(is_relative(path.as_bytes()), Path::new(&path).is_relative(), "{:?}", path);
    }
}

#[test]
fn strip_prefix_agrees_with_std_on_absolute_paths() {
    let all = samples(3);
    let mut compared = 0;
    for path in all.iter().filter(|p| p.starts_with('/')) {
        for base in all.iter().filter(|b| b.starts_with('/')) {
            let expected = Path::new(path).strip_prefix(Path::new(base)).ok().map(bytes_of_path);
            assert_eq!(
                strip_prefix(path.as_bytes(), base.as_bytes()),
                expected,
                "{:?} without {:?}",
                path,
                base
            );
            compared += 1;
        }
    }
    assert!(compared > 10_000);
}

#[test]
fn strip_prefix_of_a_relative_path_or_base_is_none() {
    let all = samples(2);
    for path in all.iter() {
        for base in all.iter() {
            if !path.starts_with('/') || !base.starts_with('/') {
                assert_eq!(strip_prefix(path.as_bytes(), base.as_bytes()), None);
            }
        }
    }
}

#[test]
fn join_agrees_with_std() {
    let all = samples(2);
    for dir in all.iter() {
        for rel in all.iter() {
            let expected = bytes_of_path(&Path::new(dir).join(Path::new(rel)));
            assert_eq!(join(dir.as_bytes(), rel.as_bytes()), expected, "{:?} / {:?}", dir, rel);
        }
    }
}

#[test]
fn parent_agrees_with_std_on_absolute_paths() {
    for path in samples(4).iter().filter(|p| p.starts_with('/')) {
        let expected = Path::new(path).parent().map(bytes_of_path);
        assert_eq!(parent(path.as_bytes()), expected, "{:?}", path);
    }
}

#[test]
fn parent_of_a_relative_path_is_none() {
    for path in samples(3).iter().filter(|p| !p.starts_with('/')) {
        assert_eq!(parent(path.as_bytes()), None, "{:?}", path);
    }
}

#[test]
fn counterpart_has_the_names_of_upper_and_of_the_rest() {
    let all = samples(3);
    let lower = "/data//lower/.";
    let uppers = ["/up", "/up/", "/", "/up/./per//"];
    for upper in uppers.iter() {
        for body in all.iter().filter(|p| !p.starts_with('/')) {
            let path = format!("{}/{}", lower, body);
            let rest = strip_prefix(path.as_bytes(), lower.as_bytes()).unwrap();
            let counterpart = join(upper.as_bytes(), &rest);
            let counterpart = String::from_utf8(counterpart).unwrap();
            let mut expected: Vec<_> = Path::new(upper).components().collect();
            expected.extend(Path::new(&path).components().skip(3));
            let found: Vec<_> = Path::new(&counterpart).components().collect();
            assert_eq!(found, expected, "{:?} for {:?}", counterpart, path);
            assert!(Path::new(&counterpart).starts_with(Path::new(upper)));
        }
    }
}
