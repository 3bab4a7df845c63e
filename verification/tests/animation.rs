use sch_gui::{Fade, Splash, FADE_HIGH, FADE_LOW};

#[test]
fn fade_brightens_then_dims() {
    let mut f = Fade::new();
    let mut greys = Vec::new();
    let mut restarts = Vec::new();
    for _ in 0..100 {
        let (grey, restarted) = f.next();
        greys.push(grey);
        restarts.push(restarted);
    }
    let rising: Vec<u8> = (51..=100).collect();
    let falling: Vec<u8> = (50..=99).rev().collect();
    assert_eq!(&greys[..50], &rising[..]);
    assert_eq!(&greys[50..], &falling[..]);
    let restart_frames: Vec<usize> = restarts.iter().enumerate().filter(|(_, r)| **r).map(|(i, _)| i).collect();
    assert_eq!(restart_frames, vec![49, 99]);
}

#[test]
fn fade_repeats_every_hundred_frames() {
    let mut f = Fade::new();
    let first: Vec<(u8, bool)> = (0..100).map(|_| f.next()).collect();
    let second: Vec<(u8, bool)> = (0..100).map(|_| f.next()).collect();
    assert_eq!(first, second);
    assert!(first.iter().all(|(g, _)| (FADE_LOW..=FADE_HIGH).contains(g)));
}

#[test]
fn splash_lasts_fifty_frames() {
    let mut s = Splash::new();
    let mut greys = Vec::new();
    loop {
        let (grey, last) = s.frame();
        greys.push(grey);
        if last {
            break;
        }
        assert!(greys.len() < 1000);
    }
    let expected: Vec<u8> = (51..=100).collect();
    assert_eq!(greys, expected);
}
