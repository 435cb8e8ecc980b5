use unkvoid::media::governor::{BitrateGovernor, CLEAN_WINDOWS, HOLDOFF_WINDOWS};

const CEILING: u32 = 10_000_000;

/// Uma janela de 1080p60: uns mil pacotes por segundo.
fn window(governor: &mut BitrateGovernor, loss_permille: u64) -> Option<u32> {
    governor.observe(1000, loss_permille, 0)
}

#[test]
fn congestion_lowers_the_target() {
    let mut governor = BitrateGovernor::new(CEILING, true);

    assert_eq!(window(&mut governor, 50), Some(7_000_000));
    assert_eq!(governor.target(), 7_000_000);
    assert_eq!(governor.loss_permille(), 50);
}

#[test]
fn a_second_drop_waits_out_the_holdoff() {
    let mut governor = BitrateGovernor::new(CEILING, true);

    assert_eq!(window(&mut governor, 200), Some(7_000_000));

    // O encoder ainda não chegou à taxa nova: a perda é a mesma, e não é culpa nova.
    for _ in 0..HOLDOFF_WINDOWS {
        assert_eq!(window(&mut governor, 200), None, "queda dupla dentro da carência");
        assert_eq!(governor.loss_permille(), 200, "a perda segue medida e publicada");
    }

    assert_eq!(governor.target(), 7_000_000);
    assert_eq!(window(&mut governor, 200), Some(4_900_000), "passada a carência, a queda vale");
}

#[test]
fn holdoff_windows_do_not_count_as_clean() {
    let mut governor = BitrateGovernor::new(CEILING, true);

    window(&mut governor, 200);

    // Oito da carência e quatro limpas de verdade: ainda falta uma.
    for _ in 0..HOLDOFF_WINDOWS + CLEAN_WINDOWS - 1 {
        assert_eq!(window(&mut governor, 0), None);
    }

    assert_eq!(window(&mut governor, 0), Some(7_350_000));
}

#[test]
fn light_random_loss_is_not_congestion() {
    let mut governor = BitrateGovernor::new(CEILING, true);

    for _ in 0..30 {
        assert_eq!(window(&mut governor, 49), None, "4,9% é Wi-Fi ruim, não uplink cheio");
    }

    assert_eq!(governor.target(), CEILING);
}

#[test]
fn the_target_never_goes_below_the_floor() {
    let mut governor = BitrateGovernor::new(CEILING, true);

    for _ in 0..50 {
        window(&mut governor, 1000);
    }

    assert_eq!(governor.target(), 3_500_000);
    assert_eq!(window(&mut governor, 1000), None, "no piso não há mudança a anunciar");
}

#[test]
fn a_still_screen_decides_nothing() {
    let mut governor = BitrateGovernor::new(CEILING, true);

    // Vinte pacotes e todos perdidos: numa tela parada isso é um soluço, não uma medida.
    assert_eq!(governor.observe(20, 20, 0), None);
    assert_eq!(governor.target(), CEILING);
    assert_eq!(governor.loss_permille(), 0);

    // O que a janela trouxe não se perde: soma com a próxima que tiver tráfego.
    assert_eq!(governor.observe(180, 0, 0), Some(7_000_000));
    assert_eq!(governor.loss_permille(), 100);
}

#[test]
fn the_target_climbs_slowly_after_five_clean_windows() {
    let mut governor = BitrateGovernor::new(CEILING, true);

    window(&mut governor, 200);

    for _ in 0..HOLDOFF_WINDOWS + 4 {
        assert_eq!(window(&mut governor, 0), None);
    }

    assert_eq!(window(&mut governor, 9), Some(7_350_000));

    // Uma janela no meio do caminho (entre 1% e 5%) mantém, e zera a contagem.
    for _ in 0..4 {
        window(&mut governor, 0);
    }

    assert_eq!(window(&mut governor, 20), None);

    for _ in 0..4 {
        assert_eq!(window(&mut governor, 0), None);
    }

    assert_eq!(window(&mut governor, 0), Some(7_717_500));
}

#[test]
fn the_target_stops_at_the_ceiling() {
    let mut governor = BitrateGovernor::new(CEILING, true);

    window(&mut governor, 200);

    for _ in 0..100 {
        window(&mut governor, 0);
    }

    assert_eq!(governor.target(), CEILING);
}

#[test]
fn dropped_packets_count_once_even_when_nacked_too() {
    let mut governor = BitrateGovernor::new(CEILING, true);

    // 30 largados pelo buffer, e os mesmos 30 pedidos de volta: 3%, não 6%.
    assert_eq!(governor.observe(1000, 30, 30), None);
    assert_eq!(governor.loss_permille(), 30);

    // Sem caminho de volta (servidor sem chave), o buffer cheio ainda é sinal.
    assert_eq!(governor.observe(1000, 0, 60), Some(7_000_000));
}

#[test]
fn off_measures_but_never_changes_the_rate() {
    let mut governor = BitrateGovernor::new(CEILING, false);

    assert_eq!(window(&mut governor, 300), None);
    assert_eq!(governor.target(), CEILING);
    assert_eq!(governor.loss_permille(), 300);
}

#[test]
fn a_refused_encoder_goes_back_to_the_fixed_rate() {
    let mut governor = BitrateGovernor::new(CEILING, true);

    window(&mut governor, 300);
    governor.give_up();

    assert_eq!(governor.target(), CEILING);
    assert_eq!(window(&mut governor, 300), None);
}

#[test]
fn the_highest_ceiling_is_never_exceeded_nor_wrapped() {
    let mut governor = BitrateGovernor::new(u32::MAX, true);

    for _ in 0..CLEAN_WINDOWS {
        assert_eq!(window(&mut governor, 0), None);
    }

    assert_eq!(governor.target(), u32::MAX);

    assert_eq!(window(&mut governor, 200), Some(3_006_477_106));

    for _ in 0..HOLDOFF_WINDOWS + CLEAN_WINDOWS - 1 {
        assert_eq!(window(&mut governor, 0), None);
    }

    assert_eq!(window(&mut governor, 0), Some(3_156_800_961));
    assert!(governor.target() >= 1_503_238_553);
}
