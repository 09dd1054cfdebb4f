use limpa_downloads::item_de_exclusao::{FilaExclusao, Item};
use limpa_downloads::letreiro::Sorteio;
use limpa_downloads::tempo::Validade;
use std::time::{Duration, SystemTime};

const SORTEIO: Sorteio = Sorteio { fator: 0, acrescimo: 100, acima: true };
const DIA: u64 = 86_400;

fn item(caminho: &str, validade: u64) -> Item {
    Item::cria(caminho.to_string(), SystemTime::now(), Validade::de_segundos(validade), SORTEIO)
}

fn item_antigo(caminho: &str, validade: u64, idade: u64) -> Item {
    let acesso = SystemTime::now() - Duration::from_secs(idade);
    Item::cria(caminho.to_string(), acesso, Validade::de_segundos(validade), SORTEIO)
}

fn nomes(v: &Vec<Item>) -> Vec<String> {
    v.iter().map(|i| i.nome.clone()).collect()
}

#[test]
fn item_tem_o_nome_do_arquivo() {
    let i = item("/tmp/data_teste/teste.dat", 15);
    assert_eq!(i.nome, "teste.dat");
    assert_eq!(i.caminho, "/tmp/data_teste/teste.dat");
    assert_eq!(i.validade, Validade::de_segundos(15));
    assert_eq!(i.letreiro.texto().unwrap(), "teste.dat");
    let d = item("/tmp/pasta/", 15);
    assert_eq!(d.nome, "pasta");
}

#[test]
fn item_sem_nome() {
    let agora = SystemTime::now();
    assert!(Item::cria_se_possivel("/".to_string(), agora, Validade::de_segundos(1), SORTEIO).is_none());
    assert!(Item::cria_se_possivel("".to_string(), agora, Validade::de_segundos(1), SORTEIO).is_none());
    assert!(Item::cria_se_possivel("/tmp/..".to_string(), agora, Validade::de_segundos(1), SORTEIO).is_none());
    let ok = Item::cria_se_possivel("/tmp/a.txt".to_string(), agora, Validade::de_segundos(1), SORTEIO);
    assert_eq!(ok.unwrap().nome, "a.txt");
}

#[test]
fn expiracao_pela_idade() {
    let i = item("/tmp/a.pdf", 15);
    assert!(!i.expira_com(Validade::de_segundos(15)));
    assert!(i.expira_com(Validade { segundos: 15, nanos: 1 }));
    assert!(!i.expira_com(Validade::de_segundos(3)));
    assert_eq!(i.tempo_restante_com(Validade::de_segundos(10)), Validade::de_segundos(5));
    assert_eq!(
        i.tempo_restante_com(Validade { segundos: 10, nanos: 250_000_000 }),
        Validade { segundos: 4, nanos: 750_000_000 }
    );
    assert_eq!(i.tempo_restante_com(Validade::de_segundos(20)), Validade::de_segundos(0));
}

#[test]
fn expiracao_pelo_relogio() {
    let mut novo = item("/tmp/a.pdf", DIA);
    assert!(!novo.expirado());
    let r = novo.tempo_restante();
    assert!(r.segundos < DIA && r.segundos > DIA - 60);
    let mut velho = item_antigo("/tmp/b.pdf", 60, 3600);
    assert!(velho.expirado());
    assert_eq!(velho.tempo_restante(), Validade::de_segundos(0));
}

#[test]
fn fila_vazia() {
    let f = FilaExclusao { todos: Vec::new(), proximas_exclusao: Vec::new() };
    assert!(f.vazia());
    assert!(!f.ha_exclusao_hoje());
    let g = FilaExclusao { todos: vec![item("/tmp/a", 1)], proximas_exclusao: Vec::new() };
    assert!(!g.vazia());
    assert!(!g.ha_exclusao_hoje());
    let h = FilaExclusao { todos: Vec::new(), proximas_exclusao: vec![item("/tmp/a", 1)] };
    assert!(!h.vazia());
    assert!(h.ha_exclusao_hoje());
}

#[test]
fn reordenacao_por_idades() {
    let mut f = FilaExclusao {
        todos: vec![item("/tmp/a", 2 * DIA), item("/tmp/b", 3600), item("/tmp/c", 3 * DIA)],
        proximas_exclusao: vec![item("/tmp/z", 10)],
    };
    let idades = vec![
        Validade::de_segundos(0),
        Validade::de_segundos(0),
        Validade::de_segundos(2 * DIA + DIA / 2),
    ];
    f.reordena_com(&idades);
    assert_eq!(nomes(&f.todos), vec!["a"]);
    // saem do último ao primeiro e entram no fim da exclusão diária.
    assert_eq!(nomes(&f.proximas_exclusao), vec!["z", "c", "b"]);
}

#[test]
fn reordenacao_no_limite_de_um_dia() {
    let mut f = FilaExclusao {
        todos: vec![item("/tmp/a", DIA), item("/tmp/b", DIA + 1)],
        proximas_exclusao: Vec::new(),
    };
    f.reordena_com(&vec![Validade { segundos: 0, nanos: 1 }, Validade::de_segundos(0)]);
    assert_eq!(nomes(&f.todos), vec!["b"]);
    assert_eq!(nomes(&f.proximas_exclusao), vec!["a"]);
}

#[test]
fn reordenacao_pelo_relogio() {
    let mut f = FilaExclusao {
        todos: vec![item("/tmp/longe", 30 * DIA), item("/tmp/hoje", 3600), item_antigo("/tmp/velho", 10, 100)],
        proximas_exclusao: Vec::new(),
    };
    f.reordenacao_dos_items();
    assert_eq!(nomes(&f.todos), vec!["longe"]);
    assert_eq!(nomes(&f.proximas_exclusao), vec!["velho", "hoje"]);
    // a reordenação não perde nem repete itens.
    assert_eq!(f.todos.len() + f.proximas_exclusao.len(), 3);
}

#[test]
fn contagem_sem_expirados() {
    let f = FilaExclusao {
        todos: vec![item("/tmp/a", DIA)],
        proximas_exclusao: vec![item("/tmp/b", 10), item("/tmp/c", 100), item("/tmp/d", 10)],
    };
    let idades = vec![Validade::de_segundos(11), Validade::de_segundos(11), Validade::de_segundos(10)];
    assert_eq!(f.total_com(&idades), 3);
    let nenhum = vec![Validade::de_segundos(0); 3];
    assert_eq!(f.total_com(&nenhum), 4);
}

#[test]
fn contagem_pelo_relogio() {
    let mut f = FilaExclusao {
        todos: vec![item("/tmp/a", DIA)],
        proximas_exclusao: vec![item_antigo("/tmp/b", 10, 100), item("/tmp/c", DIA), item_antigo("/tmp/d", 1, 50)],
    };
    assert_eq!(f.total(), 2);
    // a contagem não muda a fila.
    assert_eq!(nomes(&f.proximas_exclusao), vec!["b", "c", "d"]);
    assert_eq!(nomes(&f.todos), vec!["a"]);
}

#[test]
fn retirada_dos_expirados() {
    let mut f = FilaExclusao {
        todos: vec![item("/tmp/a", 1)],
        proximas_exclusao: vec![item("/tmp/x", 3600), item("/tmp/y", 10), item("/tmp/w", 5)],
    };
    let idades = vec![Validade::de_segundos(20), Validade::de_segundos(20), Validade::de_segundos(20)];
    let saidos = f.retira_expirados_com(&idades);
    assert_eq!(nomes(&saidos), vec!["w", "y"]);
    assert_eq!(nomes(&f.proximas_exclusao), vec!["x"]);
    assert_eq!(nomes(&f.todos), vec!["a"]);
}

#[test]
fn limpeza_pelo_relogio() {
    let mut f = FilaExclusao {
        todos: Vec::new(),
        proximas_exclusao: vec![item_antigo("/tmp/v", 60, 3600), item("/tmp/n", DIA), item_antigo("/tmp/u", 1, 10)],
    };
    let saidos = f.limpa_items_expirados();
    assert_eq!(nomes(&saidos), vec!["u", "v"]);
    assert_eq!(nomes(&f.proximas_exclusao), vec!["n"]);
}
