# Limpa Downloads

Gerenciador do diretório "Downloads": cada arquivo ou pasta ganha uma validade (pelo
tipo, pelo arquivo de definições ou por ser diretório) e, vencida a validade desde o
último acesso, é apagado. Os que vencem em menos de um dia vão para a "exclusão de
hoje"; a fila é mostrada no terminal ou, com `--ncurses`, numa interface semigráfica.

## Organização

- `src/` — a biblioteca verificada com Verus:
  - `texto`, `decimal`, `secoes`, `configuracao`: leitura do arquivo de configuração
    (seções, decomposição de validades como "1hora 30min" e sua conversão exata);
  - `tempo`: durações (`Validade`), cronômetro e temporizador;
  - `letreiro`: o letreiro que rola o nome dos arquivos;
  - `item_de_exclusao`: itens e a fila de exclusão (reordenação, limpeza, contagem);
  - `validades`: validades por extensão, por diretório e pelas definições em JSON;
  - `remocao_dir`, `remocao_diretorio`: árvores de diretórios e médias de tempo;
  - `notificacoes`, `links`, `interface`: as decisões das notificações, dos
    caminhos, dos linques e da interface.
- `tests/` — os testes da biblioteca.
- `app/` — o programa: leitura do disco, remoção de arquivos, JSON, ncurses e
  notificações, sobre a biblioteca.
